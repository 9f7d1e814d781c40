//! The confidential trade execution pipeline.
//!
//! A trade instruction crosses the boundary encrypted; inside, it is
//! decrypted, decoded against a closed set of actions, validated, turned
//! into the outgoing transfer payload, signed by the distributed key,
//! and the signature is re-encrypted for the requesting observer. An
//! unknown action tag or a zero amount aborts before anything is signed
//! or dispatched.

use vstd::prelude::*;
use crate::cipher::{apply_cipher, cipher_bytes, derive_session_key, session_key_of};
use crate::codec::{append_le_bytes, bytes_le_val, le_bytes, pow256, read_le_bytes};
use crate::field::in_field;
use crate::protocol::{AbortReason, EncryptedArgument};
use crate::shamir::KeyShare;
use crate::signing::{
    all_denominators_invertible, all_shares_wf, canonical_contributions, combined_nonce,
    combined_scalar, contributions_of, distinct_indices, encode_signature, signature_bytes_valid,
    threshold_sign, CombineError, CombinedSignature,
};

verus! {

/// The closed set of trade actions; unknown tags are rejected at decode
/// time.
#[derive(Clone, Copy, PartialEq, Eq, Structural, Debug)]
pub enum TradeAction {
    /// Do nothing.
    Hold,
    /// Buy the token.
    Buy,
    /// Sell the token.
    Sell,
    /// Provide liquidity for the token.
    ProvideLiquidity,
}

/// The wire tag of a trade action.
pub open spec fn action_tag(a: TradeAction) -> u8 {
    match a {
        TradeAction::Hold => 0,
        TradeAction::Buy => 1,
        TradeAction::Sell => 2,
        TradeAction::ProvideLiquidity => 3,
    }
}

/// The action a wire tag at most three stands for.
pub open spec fn action_of_tag(t: u8) -> TradeAction {
    if t == 0 {
        TradeAction::Hold
    } else if t == 1 {
        TradeAction::Buy
    } else if t == 2 {
        TradeAction::Sell
    } else {
        TradeAction::ProvideLiquidity
    }
}

/// One trade instruction.
#[derive(Clone, Copy, PartialEq, Eq, Structural, Debug)]
pub struct TradeInstruction {
    /// What to do.
    pub action: TradeAction,
    /// Amount in the smallest unit; zero is rejected.
    pub amount: u64,
    /// The token the instruction concerns.
    pub token_id: u32,
}

/// Byte width of an encoded trade instruction.
pub const TRADE_BYTES: usize = 13;

/// The wire form of a trade instruction: the action tag, eight bytes of
/// amount, four bytes of token identifier, little-endian.
pub open spec fn trade_encoding(ti: TradeInstruction) -> Seq<u8> {
    seq![action_tag(ti.action)] + le_bytes(ti.amount as int, 8nat) + le_bytes(
        ti.token_id as int,
        4nat,
    )
}

/// A byte string decodes as a trade instruction exactly when it has the
/// right width and a known action tag.
pub open spec fn trade_bytes_valid(bytes: Seq<u8>) -> bool {
    bytes.len() == TRADE_BYTES && bytes[0] <= 3
}

/// The instruction a well-shaped byte string encodes.
pub open spec fn decoded_trade(bytes: Seq<u8>) -> TradeInstruction {
    TradeInstruction {
        action: action_of_tag(bytes[0]),
        amount: bytes_le_val(bytes.subrange(1, 9)) as u64,
        token_id: bytes_le_val(bytes.subrange(9, 13)) as u32,
    }
}

/// Unfolds the small powers of the radix used by the trade encoding.
proof fn lemma_trade_pows()
    ensures
        pow256(4nat) == 0x100000000,
        pow256(8nat) == 0x10000000000000000,
{
    assert(pow256(0nat) == 1);
    assert(pow256(1nat) == 256);
    assert(pow256(2nat) == 0x10000);
    assert(pow256(3nat) == 0x1000000);
    assert(pow256(4nat) == 0x100000000);
    assert(pow256(5nat) == 0x10000000000);
    assert(pow256(6nat) == 0x1000000000000);
    assert(pow256(7nat) == 0x100000000000000);
    assert(pow256(8nat) == 0x10000000000000000);
}

/// Encodes a trade instruction into its 13-byte wire form.
pub fn encode_trade(ti: &TradeInstruction) -> (out: Vec<u8>)
    ensures
        out@ == trade_encoding(*ti),
        trade_bytes_valid(out@),
        decoded_trade(out@) == *ti,
{
    proof {
        lemma_trade_pows();
    }
    let mut out: Vec<u8> = Vec::new();
    let tag: u8 = match ti.action {
        TradeAction::Hold => 0,
        TradeAction::Buy => 1,
        TradeAction::Sell => 2,
        TradeAction::ProvideLiquidity => 3,
    };
    out.push(tag);
    let ghost after_tag = out@;
    append_le_bytes(&mut out, ti.amount, 8);
    let ghost after_amount = out@;
    append_le_bytes(&mut out, ti.token_id as u64, 4);
    proof {
        assert(after_amount.subrange(0, 1) =~= after_tag);
        assert(out@.subrange(0, 9) =~= after_amount);
        assert(out@ =~= trade_encoding(*ti));
        assert(out@.subrange(1, 9) =~= after_amount.subrange(1, 9));
        assert(bytes_le_val(out@.subrange(1, 9)) == ti.amount as int);
        assert(bytes_le_val(out@.subrange(9, 13)) == ti.token_id as int);
    }
    out
}

/// Decodes a 13-byte wire instruction, rejecting unknown action tags.
pub fn decode_trade(bytes: &Vec<u8>) -> (res: Option<TradeInstruction>)
    ensures
        res is Some <==> trade_bytes_valid(bytes@),
        res matches Some(ti) ==> ti == decoded_trade(bytes@),
{
    proof {
        lemma_trade_pows();
    }
    if bytes.len() != TRADE_BYTES {
        return None;
    }
    let tag = bytes[0];
    if tag > 3 {
        return None;
    }
    let action = if tag == 0 {
        TradeAction::Hold
    } else if tag == 1 {
        TradeAction::Buy
    } else if tag == 2 {
        TradeAction::Sell
    } else {
        TradeAction::ProvideLiquidity
    };
    let amount = read_le_bytes(bytes, 1, 8);
    let token = read_le_bytes(bytes, 9, 4);
    Some(TradeInstruction { action, amount, token_id: token as u32 })
}

/// Executes an encrypted trade instruction inside the confidential
/// boundary: decrypt, validate, build the transfer payload, sign it
/// with the distributed key, and re-encrypt the signature for the
/// observer. An unknown action or a zero amount aborts as an invalid
/// instruction before any signing; a failed signing round aborts as an
/// insufficient quorum. No plaintext of the instruction is part of the
/// result.
pub fn execute_encrypted_trade(
    trade: &EncryptedArgument,
    boundary_key: u64,
    shares: &Vec<KeyShare>,
    threshold: u8,
    observer_key: u64,
    reply_ephemeral: u64,
    reply_nonce: u128,
) -> (res: Result<EncryptedArgument, AbortReason>)
    requires
        trade.wf(),
        in_field(boundary_key as int),
        in_field(observer_key as int),
        in_field(reply_ephemeral as int),
        all_shares_wf(shares@),
    ensures
        ({
            let plain = cipher_bytes(
                trade.ciphertext@,
                session_key_of(trade.ephemeral_public_key as int, boundary_key as int),
                trade.nonce as int,
            );
            let valid = trade_bytes_valid(plain) && decoded_trade(plain).amount > 0;
            let contribs = contributions_of(shares@, trade_encoding(decoded_trade(plain)));
            let signable = {
                &&& threshold as int <= shares@.len()
                &&& distinct_indices(contribs)
                &&& canonical_contributions(contribs)
                &&& all_denominators_invertible(contribs)
            };
            &&& (res == Err::<EncryptedArgument, AbortReason>(AbortReason::InvalidInstruction)
                <==> !valid)
            &&& (res is Ok <==> valid && signable)
            &&& (valid && !signable ==> res == Err::<EncryptedArgument, AbortReason>(
                AbortReason::InsufficientQuorum,
            ))
            &&& (res matches Ok(out) ==> {
                let sig = CombinedSignature {
                    r: combined_nonce(contribs) as u64,
                    s: combined_scalar(contribs) as u64,
                };
                &&& out.ephemeral_public_key == reply_ephemeral
                &&& out.nonce == reply_nonce
                &&& exists|sig_bytes: Seq<u8>|
                    {
                        &&& signature_bytes_valid(sig_bytes)
                        &&& crate::signing::decoded_signature(sig_bytes) == sig
                        &&& out.ciphertext@ == cipher_bytes(
                            sig_bytes,
                            session_key_of(reply_ephemeral as int, observer_key as int),
                            reply_nonce as int,
                        )
                    }
                &&& out.wf()
            })
        }),
{
    let session = derive_session_key(trade.ephemeral_public_key, boundary_key);
    let plain = apply_cipher(&trade.ciphertext, session, trade.nonce);
    let instruction = match decode_trade(&plain) {
        Some(ti) => ti,
        None => {
            return Err(AbortReason::InvalidInstruction);
        },
    };
    if instruction.amount == 0 {
        return Err(AbortReason::InvalidInstruction);
    }
    let payload = encode_trade(&instruction);
    let sig = match threshold_sign(shares, &payload, threshold) {
        Ok(sig) => sig,
        Err(CombineError::InsufficientQuorum) => {
            return Err(AbortReason::InsufficientQuorum);
        },
        Err(CombineError::InvalidContribution) => {
            return Err(AbortReason::InsufficientQuorum);
        },
    };
    let sig_bytes = encode_signature(&sig);
    let reply_session = derive_session_key(reply_ephemeral, observer_key);
    let ciphertext = apply_cipher(&sig_bytes, reply_session, reply_nonce);
    Ok(EncryptedArgument { ciphertext, nonce: reply_nonce, ephemeral_public_key: reply_ephemeral })
}

} // verus!
