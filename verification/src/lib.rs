//! A confidential t-of-n threshold signing library.
//!
//! A signing key is split into `n` shares over a prime field, any `t` of
//! which suffice to sign; each node computes a partial signature from its
//! share alone, and a combiner merges at least `t` partial contributions
//! into one signature that verifies against the wallet's verifying key.
//! Around that core sit a request protocol that tracks one in-flight
//! computation per request identifier and authenticates every delivered
//! result, a trade pipeline that validates encrypted trade instructions
//! before routing them to the signer, and the vault bookkeeping that
//! gates who may ask for a signature.

pub mod cipher;
pub mod codec;
pub mod field;
pub mod protocol;
pub mod shamir;
pub mod signing;
pub mod trade;
pub mod vault;
