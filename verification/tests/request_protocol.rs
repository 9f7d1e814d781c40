use agentic_wallet::protocol::{
    build_result_message, AbortReason, ComputationResult, ComputationStatus, EncryptedArgument,
    RequestOutcome, RequestRegistry, RequestStatus, SubmitError,
};
use agentic_wallet::signing::{attest_message, verifying_key_of, CombinedSignature};

const CLUSTER_SECRET: u64 = 31337;

fn registry() -> RequestRegistry {
    RequestRegistry::new(verifying_key_of(CLUSTER_SECRET))
}

fn args() -> EncryptedArgument {
    EncryptedArgument { ciphertext: vec![9, 8, 7], nonce: 555, ephemeral_public_key: 44 }
}

fn attested_result(request_id: u64, status: ComputationStatus) -> ComputationResult {
    let msg = build_result_message(request_id, &status);
    let proof = attest_message(&msg, CLUSTER_SECRET);
    ComputationResult { request_id, status, authenticity_proof: proof }
}

#[test]
fn duplicate_request_id_is_rejected() {
    let mut reg = registry();
    assert_eq!(reg.submit(7, args(), 4), Ok(()));
    // The second submission under the same identifier must not proceed.
    assert_eq!(reg.submit(7, args(), 4), Err(SubmitError::DuplicateId));
    assert_eq!(reg.status_of(7), Some(RequestStatus::Queued));
}

#[test]
fn malformed_arguments_are_rejected() {
    let mut reg = registry();
    let empty = EncryptedArgument { ciphertext: Vec::new(), nonce: 1, ephemeral_public_key: 2 };
    assert_eq!(reg.submit(1, empty, 4), Err(SubmitError::MalformedArgs));
    assert_eq!(reg.status_of(1), None);
}

#[test]
fn dispatched_arguments_are_those_submitted() {
    let mut reg = registry();
    reg.submit(2, args(), 4).unwrap();
    assert_eq!(reg.dispatch(2), Some(2));
    assert_eq!(reg.args_of(2), Some(&args()));
    assert_eq!(reg.args_of(3), None);
}

#[test]
fn dispatch_moves_queued_to_dispatched_once() {
    let mut reg = registry();
    reg.submit(3, args(), 4).unwrap();
    assert_eq!(reg.dispatch(3), Some(3));
    assert_eq!(reg.status_of(3), Some(RequestStatus::Dispatched));
    // A second dispatch, or one for an unknown identifier, does nothing.
    assert_eq!(reg.dispatch(3), None);
    assert_eq!(reg.dispatch(99), None);
}

#[test]
fn authenticated_result_completes_and_releases_payload() {
    let mut reg = registry();
    reg.submit(5, args(), 4).unwrap();
    reg.dispatch(5).unwrap();
    let result = attested_result(5, ComputationStatus::Completed(vec![1, 2, 3, 4]));
    match reg.deliver(&result) {
        Some(RequestOutcome::Completed(payload)) => assert_eq!(payload, vec![1, 2, 3, 4]),
        other => panic!("expected a completed outcome, got {:?}", other.is_some()),
    }
    assert_eq!(reg.status_of(5), Some(RequestStatus::Completed));
}

#[test]
fn redelivery_triggers_no_second_outcome() {
    let mut reg = registry();
    reg.submit(6, args(), 2).unwrap();
    reg.dispatch(6).unwrap();
    let result = attested_result(6, ComputationStatus::Completed(vec![10, 20]));
    assert!(reg.deliver(&result).is_some());
    // Delivering the same result again is a no-op: exactly one outcome.
    assert!(reg.deliver(&result).is_none());
    assert!(reg.deliver(&result).is_none());
    assert_eq!(reg.status_of(6), Some(RequestStatus::Completed));
}

#[test]
fn forged_proof_aborts_and_payload_is_not_retrievable() {
    let mut reg = registry();
    reg.submit(8, args(), 3).unwrap();
    reg.dispatch(8).unwrap();
    // A proof made with the wrong key must not be accepted.
    let status = ComputationStatus::Completed(vec![42, 42, 42]);
    let msg = build_result_message(8, &status);
    let forged = attest_message(&msg, CLUSTER_SECRET + 1);
    let result = ComputationResult { request_id: 8, status, authenticity_proof: forged };
    match reg.deliver(&result) {
        Some(RequestOutcome::Aborted(reason)) => {
            assert_eq!(reason, AbortReason::VerificationFailed)
        },
        _ => panic!("expected an abort"),
    }
    // The request is terminal and no accessor yields the payload.
    assert_eq!(reg.status_of(8), Some(RequestStatus::Aborted));
    assert!(reg.deliver(&result).is_none());
}

#[test]
fn garbage_proof_aborts() {
    let mut reg = registry();
    reg.submit(9, args(), 3).unwrap();
    reg.dispatch(9).unwrap();
    let status = ComputationStatus::Completed(vec![1, 2, 3]);
    let result = ComputationResult {
        request_id: 9,
        status,
        authenticity_proof: CombinedSignature { r: 1, s: 2 },
    };
    assert!(matches!(
        reg.deliver(&result),
        Some(RequestOutcome::Aborted(AbortReason::VerificationFailed))
    ));
}

#[test]
fn cluster_abort_reaches_the_caller_authenticated() {
    let mut reg = registry();
    reg.submit(10, args(), 3).unwrap();
    reg.dispatch(10).unwrap();
    let result = attested_result(10, ComputationStatus::Aborted(AbortReason::InsufficientQuorum));
    assert!(matches!(
        reg.deliver(&result),
        Some(RequestOutcome::Aborted(AbortReason::InsufficientQuorum))
    ));
    assert_eq!(reg.status_of(10), Some(RequestStatus::Aborted));
}

#[test]
fn wrong_payload_shape_is_not_accepted() {
    let mut reg = registry();
    reg.submit(11, args(), 4).unwrap();
    reg.dispatch(11).unwrap();
    // Declared output shape is four bytes; the result carries two.
    let result = attested_result(11, ComputationStatus::Completed(vec![1, 2]));
    assert!(matches!(
        reg.deliver(&result),
        Some(RequestOutcome::Aborted(AbortReason::VerificationFailed))
    ));
}

#[test]
fn results_for_unknown_or_undispatched_requests_do_nothing() {
    let mut reg = registry();
    reg.submit(12, args(), 3).unwrap();
    let result = attested_result(12, ComputationStatus::Completed(vec![1, 2, 3]));
    // Still queued: no effect.
    assert!(reg.deliver(&result).is_none());
    assert_eq!(reg.status_of(12), Some(RequestStatus::Queued));
    // Unknown identifier: no effect.
    let stray = attested_result(99, ComputationStatus::Completed(vec![1, 2, 3]));
    assert!(reg.deliver(&stray).is_none());
}
