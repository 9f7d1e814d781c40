use agentic_wallet::field::{add_mod, inv_mod, mul_mod, sub_mod, FIELD_MODULUS};
use agentic_wallet::shamir::{distribute_key, ConfigError};
use agentic_wallet::signing::{
    combine, decode_signature, encode_signature, fold_digest, sign_partial, sign_transaction,
    threshold_sign, verify_agent_signature, verify_signature, verifying_key_of, CombineError,
    CombinedSignature, SigningRequest,
};

fn digest() -> Vec<u8> {
    (0u8..32u8).map(|b| b.wrapping_mul(7).wrapping_add(3)).collect()
}

#[test]
fn field_operations_exact() {
    assert_eq!(add_mod(FIELD_MODULUS - 1, 1), 0);
    assert_eq!(sub_mod(0, 1), FIELD_MODULUS - 1);
    assert_eq!(mul_mod(1 << 31, 1 << 31), 2); // 2^62 = 2 * (2^61 - 1) + 2
}

#[test]
fn inverse_of_two_exact() {
    // The inverse of two is (modulus + 1) / 2.
    assert_eq!(inv_mod(2), Some(1152921504606846976));
    assert_eq!(inv_mod(0), None);
    let v = inv_mod(12345).unwrap();
    assert_eq!(mul_mod(12345, v), 1);
}

#[test]
fn fold_digest_exact() {
    // ((1 * 256 + 1) * 256 + 2) = 65794
    assert_eq!(fold_digest(&vec![1u8, 2u8], 1), 65794);
    assert_eq!(fold_digest(&Vec::new(), 42), 42);
}

#[test]
fn distribute_key_rejects_bad_thresholds() {
    let entropy = vec![17u64, 23u64];
    assert_eq!(distribute_key(99, 0, 3, &entropy), Err(ConfigError::InvalidThreshold));
    assert_eq!(distribute_key(99, 4, 3, &entropy), Err(ConfigError::InvalidThreshold));
    assert!(distribute_key(99, 3, 3, &entropy).is_ok());
}

#[test]
fn two_of_three_subsets_agree_and_verify() {
    // Threshold two of three nodes; combine the pairs {0, 2} and {1, 2}.
    let key: u64 = 123456789;
    let entropy = vec![987654321u64];
    let shares = distribute_key(key, 2, 3, &entropy).unwrap();
    assert_eq!(shares.len(), 3);
    let d = digest();
    let vk = verifying_key_of(key);

    let c0 = sign_partial(&shares[0], &d);
    let c1 = sign_partial(&shares[1], &d);
    let c2 = sign_partial(&shares[2], &d);

    let sig_a = combine(&vec![c0, c2], 2).unwrap();
    let sig_b = combine(&vec![c1, c2], 2).unwrap();

    assert!(verify_signature(&sig_a, &vk, &d));
    assert!(verify_signature(&sig_b, &vk, &d));
    // Deterministic nonce derivation: the two combinations are
    // bit-identical.
    assert_eq!(sig_a, sig_b);
}

#[test]
fn threshold_one_singletons_agree_and_verify() {
    let key: u64 = 2024;
    let shares = distribute_key(key, 1, 3, &Vec::new()).unwrap();
    let d = digest();
    let vk = verifying_key_of(key);
    let sig_a = combine(&vec![sign_partial(&shares[0], &d)], 1).unwrap();
    let sig_b = combine(&vec![sign_partial(&shares[2], &d)], 1).unwrap();
    assert!(verify_signature(&sig_a, &vk, &d));
    assert_eq!(sig_a, sig_b);
}

#[test]
fn all_three_contributions_also_verify() {
    let key: u64 = 42;
    let entropy = vec![7u64];
    let shares = distribute_key(key, 2, 3, &entropy).unwrap();
    let d = digest();
    let vk = verifying_key_of(key);
    let sig = threshold_sign(&shares, &d, 2).unwrap();
    assert!(verify_signature(&sig, &vk, &d));
}

#[test]
fn under_threshold_combination_is_refused() {
    let key: u64 = 42;
    let entropy = vec![7u64];
    let shares = distribute_key(key, 2, 3, &entropy).unwrap();
    let d = digest();
    let c0 = sign_partial(&shares[0], &d);
    assert_eq!(combine(&vec![c0], 2), Err(CombineError::InsufficientQuorum));
    assert_eq!(combine(&Vec::new(), 2), Err(CombineError::InsufficientQuorum));
}

#[test]
fn duplicate_node_contributions_are_refused() {
    let key: u64 = 42;
    let entropy = vec![7u64];
    let shares = distribute_key(key, 2, 3, &entropy).unwrap();
    let d = digest();
    let c0 = sign_partial(&shares[0], &d);
    assert_eq!(combine(&vec![c0, c0], 2), Err(CombineError::InsufficientQuorum));
}

#[test]
fn non_canonical_contribution_is_refused() {
    let key: u64 = 42;
    let entropy = vec![7u64];
    let shares = distribute_key(key, 2, 3, &entropy).unwrap();
    let d = digest();
    let c0 = sign_partial(&shares[0], &d);
    let mut c1 = sign_partial(&shares[1], &d);
    c1.partial_scalar = u64::MAX;
    assert_eq!(combine(&vec![c0, c1], 2), Err(CombineError::InvalidContribution));
}

#[test]
fn signature_wire_roundtrip() {
    let sig = CombinedSignature { r: 1234567, s: FIELD_MODULUS - 1 };
    let bytes = encode_signature(&sig);
    assert_eq!(bytes.len(), 64);
    assert_eq!(decode_signature(&bytes), Some(sig));
}

#[test]
fn malformed_signature_bytes_are_rejected() {
    let sig = CombinedSignature { r: 5, s: 6 };
    let mut bytes = encode_signature(&sig);
    assert_eq!(decode_signature(&vec![0u8; 63]), None);
    // A non-canonical scalar half is rejected.
    bytes[12] = 1;
    assert_eq!(decode_signature(&bytes), None);
}

#[test]
fn signing_request_digest_is_signed() {
    let key: u64 = 1001;
    let entropy = vec![55u64];
    let shares = distribute_key(key, 2, 2, &entropy).unwrap();
    let request = SigningRequest { tx_hash: digest(), agent_id: 9 };
    let wire = sign_transaction(&shares, &request.tx_hash, 2).unwrap();
    assert!(verify_agent_signature(&verifying_key_of(key), &request.tx_hash, &wire));
}

#[test]
fn sign_transaction_produces_verifiable_wire_signature() {
    let key: u64 = 777;
    let entropy = vec![101u64, 202u64];
    let shares = distribute_key(key, 3, 4, &entropy).unwrap();
    let d = digest();
    let vk = verifying_key_of(key);
    let wire = sign_transaction(&shares, &d, 3).unwrap();
    assert!(verify_agent_signature(&vk, &d, &wire));
    // A tampered byte no longer verifies.
    let mut bad = wire.clone();
    bad[0] ^= 1;
    assert!(!verify_agent_signature(&vk, &d, &bad));
    // The signature does not verify for a different message.
    let mut d2 = d.clone();
    d2[31] ^= 0xff;
    assert!(!verify_agent_signature(&vk, &d2, &wire));
}
