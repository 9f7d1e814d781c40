use agentic_wallet::cipher::{apply_cipher, derive_session_key};
use agentic_wallet::protocol::{AbortReason, EncryptedArgument};
use agentic_wallet::shamir::distribute_key;
use agentic_wallet::signing::{verify_agent_signature, verifying_key_of};
use agentic_wallet::trade::{
    decode_trade, encode_trade, execute_encrypted_trade, TradeAction, TradeInstruction,
};
use agentic_wallet::vault::{
    gated_withdraw, initialize_agent, initialize_vault, ErrorCode, AgentState,
};

const BOUNDARY_KEY: u64 = 900001;
const OBSERVER_KEY: u64 = 800001;

fn encrypt_trade(ti: &TradeInstruction, ephemeral: u64, nonce: u128) -> EncryptedArgument {
    let plain = encode_trade(ti);
    let session = derive_session_key(ephemeral, BOUNDARY_KEY);
    EncryptedArgument {
        ciphertext: apply_cipher(&plain, session, nonce),
        nonce,
        ephemeral_public_key: ephemeral,
    }
}

#[test]
fn cipher_roundtrip() {
    let data = vec![0u8, 1, 2, 250, 255];
    let key = derive_session_key(12, 34);
    let once = apply_cipher(&data, key, 777);
    assert_ne!(once, data);
    assert_eq!(apply_cipher(&once, key, 777), data);
}

#[test]
fn trade_encoding_exact_and_roundtrip() {
    let ti = TradeInstruction { action: TradeAction::Sell, amount: 0x0102, token_id: 0x0304 };
    let bytes = encode_trade(&ti);
    assert_eq!(bytes, vec![2u8, 0x02, 0x01, 0, 0, 0, 0, 0, 0, 0x04, 0x03, 0, 0]);
    assert_eq!(decode_trade(&bytes), Some(ti));
}

#[test]
fn unknown_action_tag_is_rejected_at_decode() {
    let mut bytes = encode_trade(&TradeInstruction {
        action: TradeAction::Hold,
        amount: 5,
        token_id: 6,
    });
    bytes[0] = 4;
    assert_eq!(decode_trade(&bytes), None);
    assert_eq!(decode_trade(&vec![0u8; 12]), None);
}

#[test]
fn invalid_action_aborts_without_dispatch() {
    // An encrypted instruction whose action tag is four must abort as an
    // invalid instruction and never reach the signer.
    let ti = TradeInstruction { action: TradeAction::Buy, amount: 10, token_id: 1 };
    let mut plain = encode_trade(&ti);
    plain[0] = 4;
    let session = derive_session_key(7, BOUNDARY_KEY);
    let trade = EncryptedArgument {
        ciphertext: apply_cipher(&plain, session, 99),
        nonce: 99,
        ephemeral_public_key: 7,
    };
    let shares = distribute_key(4242, 2, 3, &vec![11u64]).unwrap();
    let res = execute_encrypted_trade(&trade, BOUNDARY_KEY, &shares, 2, OBSERVER_KEY, 13, 1001);
    assert_eq!(res, Err(AbortReason::InvalidInstruction));
}

#[test]
fn zero_amount_aborts() {
    let ti = TradeInstruction { action: TradeAction::Buy, amount: 0, token_id: 1 };
    let trade = encrypt_trade(&ti, 7, 99);
    let shares = distribute_key(4242, 2, 3, &vec![11u64]).unwrap();
    let res = execute_encrypted_trade(&trade, BOUNDARY_KEY, &shares, 2, OBSERVER_KEY, 13, 1001);
    assert_eq!(res, Err(AbortReason::InvalidInstruction));
}

#[test]
fn valid_trade_yields_encrypted_verifiable_signature() {
    let wallet_key: u64 = 654321;
    let shares = distribute_key(wallet_key, 2, 3, &vec![31u64]).unwrap();
    let ti = TradeInstruction { action: TradeAction::ProvideLiquidity, amount: 7, token_id: 9 };
    let trade = encrypt_trade(&ti, 7, 99);
    let out = execute_encrypted_trade(&trade, BOUNDARY_KEY, &shares, 2, OBSERVER_KEY, 13, 1001)
        .unwrap();
    assert_eq!(out.ephemeral_public_key, 13);
    assert_eq!(out.nonce, 1001);
    // The observer decrypts the reply and verifies the signature over
    // the transfer payload.
    let session = derive_session_key(13, OBSERVER_KEY);
    let wire = apply_cipher(&out.ciphertext, session, 1001);
    let payload = encode_trade(&ti);
    assert!(verify_agent_signature(&verifying_key_of(wallet_key), &payload, &wire));
}

#[test]
fn insufficient_shares_abort_the_trade() {
    let shares = distribute_key(4242, 2, 3, &vec![11u64]).unwrap();
    let two = vec![shares[0], shares[1]];
    let ti = TradeInstruction { action: TradeAction::Buy, amount: 10, token_id: 1 };
    let trade = encrypt_trade(&ti, 7, 99);
    let res = execute_encrypted_trade(&trade, BOUNDARY_KEY, &two, 3, OBSERVER_KEY, 13, 1001);
    assert_eq!(res, Err(AbortReason::InsufficientQuorum));
}

#[test]
fn vault_deposit_and_withdraw() {
    let mut vault = initialize_vault(1);
    assert_eq!(vault.deposit(2, 100), Err(ErrorCode::Unauthorized));
    assert_eq!(vault.deposit(1, 100), Ok(()));
    assert_eq!(vault.balance, 100);
    assert_eq!(vault.deposit(1, u64::MAX), Err(ErrorCode::Overflow));
    assert_eq!(vault.withdraw(1, 101), Err(ErrorCode::InsufficientFunds));
    assert_eq!(vault.withdraw(2, 1), Err(ErrorCode::Unauthorized));
    assert_eq!(vault.withdraw(1, 40), Ok(()));
    assert_eq!(vault.balance, 60);
}

#[test]
fn risk_evaluation_gates_execution() {
    let mut st = initialize_agent(1, 1000);
    assert_eq!(st.risk_score, 50);
    assert!(st.execution_enabled);
    assert_eq!(st.evaluate_agent_action(1, 101), Err(ErrorCode::InvalidRiskScore));
    assert_eq!(st.evaluate_agent_action(2, 10), Err(ErrorCode::Unauthorized));
    assert_eq!(st.evaluate_agent_action(1, 81), Ok(()));
    assert!(!st.execution_enabled);
    assert_eq!(st.evaluate_agent_action(1, 80), Ok(()));
    assert!(st.execution_enabled);
}

#[test]
fn gated_withdraw_checks_every_gate() {
    let mut vault = initialize_vault(1);
    vault.deposit(1, 500).unwrap();
    let mut st = initialize_agent(1, 1000);

    assert_eq!(gated_withdraw(&mut vault, &mut st, 2, 10, 1500), Err(ErrorCode::Unauthorized));

    st.execution_enabled = false;
    assert_eq!(gated_withdraw(&mut vault, &mut st, 1, 10, 1500), Err(ErrorCode::ExecutionBlocked));
    st.execution_enabled = true;

    let mut risky = AgentState {
        owner: 1,
        risk_score: 90,
        execution_enabled: true,
        last_action_timestamp: 1000,
    };
    assert_eq!(gated_withdraw(&mut vault, &mut risky, 1, 10, 1500), Err(ErrorCode::HighRisk));

    assert_eq!(
        gated_withdraw(&mut vault, &mut st, 1, 10, 1000 + 3600),
        Err(ErrorCode::ExecutionTimeout)
    );
    assert_eq!(
        gated_withdraw(&mut vault, &mut st, 1, 501, 1500),
        Err(ErrorCode::InsufficientFunds)
    );
    assert_eq!(gated_withdraw(&mut vault, &mut st, 1, 10, 1500), Ok(()));
    assert_eq!(vault.balance, 490);
    assert_eq!(st.last_action_timestamp, 1500);
}
