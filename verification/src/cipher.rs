//! The stream cipher of the confidential boundary.
//!
//! Arguments and results cross the boundary encrypted under a session
//! key derived from one-time material: a keystream is drawn from the
//! session key and the request nonce, and bytes are combined with it by
//! exclusive or, so that applying the cipher twice with the same
//! material restores the plaintext and material from one request is
//! useless against another.

use vstd::prelude::*;
use crate::field::{add_mod, fadd, fmul, in_field, mul_mod, FIELD_MODULUS};

verus! {

/// The session key two parties derive from an ephemeral public key and
/// a recipient key.
pub open spec fn session_key_of(ephemeral: int, recipient: int) -> int {
    fmul(ephemeral, recipient)
}

/// Byte `i` of the keystream drawn from a session key and nonce.
pub open spec fn keystream_byte(key: int, nonce: int, i: int) -> u8 {
    (fadd(fmul(key, (i + 1) % (FIELD_MODULUS as int)), nonce % (FIELD_MODULUS as int)) % 256) as u8
}

/// What applying the cipher does to a byte string.
pub open spec fn cipher_bytes(data: Seq<u8>, key: int, nonce: int) -> Seq<u8> {
    Seq::new(data.len(), |i: int| (data[i] ^ keystream_byte(key, nonce, i)) as u8)
}

/// Derives the session key of an ephemeral public key and a recipient
/// key.
pub fn derive_session_key(ephemeral: u64, recipient: u64) -> (key: u64)
    requires
        in_field(ephemeral as int),
        in_field(recipient as int),
    ensures
        in_field(key as int),
        key as int == session_key_of(ephemeral as int, recipient as int),
{
    mul_mod(ephemeral, recipient)
}

/// Applies the keystream of `(key, nonce)` to `data`. Applying it twice
/// with the same material restores the input.
pub fn apply_cipher(data: &Vec<u8>, key: u64, nonce: u128) -> (out: Vec<u8>)
    requires
        in_field(key as int),
    ensures
        out@ == cipher_bytes(data@, key as int, nonce as int),
        out@.len() == data@.len(),
{
    let nonce_red = (nonce % (FIELD_MODULUS as u128)) as u64;
    proof {
        vstd::arithmetic::div_mod::lemma_mod_bound(nonce as int, FIELD_MODULUS as int);
    }
    let n = data.len();
    let mut out: Vec<u8> = Vec::new();
    let mut i: usize = 0;
    while i < n
        invariant
            i <= n,
            n == data@.len(),
            in_field(key as int),
            in_field(nonce_red as int),
            nonce_red as int == (nonce as int) % (FIELD_MODULUS as int),
            out@.len() == i,
            forall|j: int|
                0 <= j < i ==> out@[j] == (data@[j] ^ keystream_byte(
                    key as int,
                    nonce as int,
                    j,
                )),
        decreases n - i,
    {
        let pos = ((i as u128 + 1) % (FIELD_MODULUS as u128)) as u64;
        proof {
            vstd::arithmetic::div_mod::lemma_mod_bound(i as int + 1, FIELD_MODULUS as int);
        }
        let word = add_mod(mul_mod(key, pos), nonce_red);
        let ks = (word % 256) as u8;
        proof {
            assert(ks == keystream_byte(key as int, nonce as int, i as int));
        }
        out.push(data[i] ^ ks);
        i = i + 1;
    }
    proof {
        assert(out@ =~= cipher_bytes(data@, key as int, nonce as int));
    }
    out
}

/// Applying the cipher twice with the same key and nonce restores the
/// plaintext: decryption is encryption.
pub proof fn lemma_cipher_roundtrip(data: Seq<u8>, key: int, nonce: int)
    ensures
        cipher_bytes(cipher_bytes(data, key, nonce), key, nonce) == data,
{
    let once = cipher_bytes(data, key, nonce);
    let twice = cipher_bytes(once, key, nonce);
    assert forall|i: int| 0 <= i < data.len() implies twice[i] == data[i] by {
        let k = keystream_byte(key, nonce, i);
        let d = data[i];
        assert(((d ^ k) ^ k) == d) by (bit_vector);
    }
    assert(twice =~= data);
}

} // verus!
