//! Partial signing and threshold combination.
//!
//! Each node derives a per-round nonce deterministically from its share
//! and the message digest, and contributes the scalar
//! `nonce + share * challenge`. Because the nonce is an affine function
//! of the share, the contributions of any `t` nodes lie on a polynomial
//! of degree `t - 1` whose constant term is the round signature scalar;
//! the combiner recovers it by a Lagrange-weighted sum, and the result
//! verifies against the verifying key of the shared secret no matter
//! which qualifying subset contributed.

use vstd::prelude::*;
use crate::codec::{
    append_le_bytes, bytes_le_val, lemma_bytes_le_val_bound, lemma_bytes_le_val_split,
    lemma_bytes_le_val_zero, lemma_pow256_increases, pow256, read_le_bytes,
};
use crate::field::{
    add_mod, congruent, fadd, finv, fmul, fsub, has_inverse, in_field, inv_mod, is_inverse,
    lemma_cong_add_both, lemma_cong_mul, lemma_cong_mul_both, lemma_cong_reduce, lemma_cong_sym,
    lemma_cong_to_eq, lemma_cong_trans, lemma_fadd_cong, lemma_finv_of, lemma_fmul_cong,
    lemma_fsub_cong, mul_mod, sub_mod, FIELD_MODULUS,
};
use crate::shamir::{poly_eval, KeyShare};

verus! {

/// Byte width of one encoded scalar on the wire.
pub const SCALAR_BYTES: usize = 32;

/// Byte width of an encoded combined signature on the wire.
pub const SIGNATURE_BYTES: usize = 64;

/// Seed distinguishing the challenge scalar drawn from a digest.
pub const CHALLENGE_SEED: u64 = 1;

/// Seed distinguishing the multiplicative nonce factor drawn from a digest.
pub const NONCE_FACTOR_SEED: u64 = 2;

/// Seed distinguishing the additive nonce offset drawn from a digest.
pub const NONCE_OFFSET_SEED: u64 = 3;

/// Folding a byte string into the field, radix-256, from a seed.
pub open spec fn fold_bytes(acc: int, d: Seq<u8>) -> int
    decreases d.len(),
{
    if d.len() == 0 {
        acc
    } else {
        fold_bytes(fadd(fmul(acc, 256), d[0] as int), d.subrange(1, d.len() as int))
    }
}

/// The challenge scalar of a message digest.
pub open spec fn challenge_of(d: Seq<u8>) -> int {
    fold_bytes(CHALLENGE_SEED as int, d)
}

/// The multiplicative part of the deterministic nonce derivation.
pub open spec fn nonce_factor_of(d: Seq<u8>) -> int {
    fold_bytes(NONCE_FACTOR_SEED as int, d)
}

/// The additive part of the deterministic nonce derivation.
pub open spec fn nonce_offset_of(d: Seq<u8>) -> int {
    fold_bytes(NONCE_OFFSET_SEED as int, d)
}

/// The nonce a node derives for one round: an affine function of its
/// share whose coefficients depend only on the digest, so that nonces of
/// distinct rounds differ while the nonces of one round interpolate.
pub open spec fn nonce_of(share: int, d: Seq<u8>) -> int {
    fadd(fmul(nonce_factor_of(d), share), nonce_offset_of(d))
}

/// The partial scalar a node contributes: `nonce + share * challenge`.
pub open spec fn partial_scalar_of(share: int, d: Seq<u8>) -> int {
    fadd(nonce_of(share, d), fmul(share, challenge_of(d)))
}

/// One node's contribution to one signing round; discarded after
/// combination.
#[derive(Clone, Copy, PartialEq, Eq, Structural, Debug)]
pub struct PartialSignatureContribution {
    /// Index of the contributing node.
    pub node_index: u8,
    /// The node's partial signature scalar.
    pub partial_scalar: u64,
    /// The node's nonce commitment for this round.
    pub nonce_commitment: u64,
}

impl PartialSignatureContribution {
    /// Both scalars are canonical field elements.
    pub open spec fn wf(self) -> bool {
        in_field(self.partial_scalar as int) && in_field(self.nonce_commitment as int)
    }

    /// The field point of the contributing node.
    pub open spec fn point(self) -> int {
        self.node_index as int + 1
    }
}

/// A combined threshold signature: commitment aggregate and signature
/// scalar.
#[derive(Clone, Copy, PartialEq, Eq, Structural, Debug)]
pub struct CombinedSignature {
    /// The aggregated nonce commitment.
    pub r: u64,
    /// The aggregated signature scalar.
    pub s: u64,
}

impl CombinedSignature {
    /// Both scalars are canonical field elements.
    pub open spec fn wf(self) -> bool {
        in_field(self.r as int) && in_field(self.s as int)
    }
}

/// The public verification scalar standing for the shared secret. In a
/// deployment this is the group element committing to the key; in this
/// field model it is the commitment scalar the combined signature is
/// checked against.
#[derive(Clone, Copy, PartialEq, Eq, Structural, Debug)]
pub struct VerifyingKey {
    /// The commitment scalar of the shared signing key.
    pub scalar: u64,
}

impl VerifyingKey {
    /// The scalar is a canonical field element.
    pub open spec fn wf(self) -> bool {
        in_field(self.scalar as int)
    }
}

/// A signature is valid for a key and digest when the signature scalar
/// equals the aggregated nonce plus the key times the challenge.
pub open spec fn signature_valid(sig: CombinedSignature, key: VerifyingKey, d: Seq<u8>) -> bool {
    sig.s as int == fadd(sig.r as int, fmul(key.scalar as int, challenge_of(d)))
}

/// Folds a byte string into the field from a canonical seed.
pub fn fold_digest(data: &Vec<u8>, seed: u64) -> (r: u64)
    requires
        in_field(seed as int),
    ensures
        in_field(r as int),
        r as int == fold_bytes(seed as int, data@),
{
    let mut acc: u64 = seed;
    let mut i: usize = 0;
    proof {
        assert(data@.subrange(0, data@.len() as int) =~= data@);
    }
    while i < data.len()
        invariant
            i <= data@.len(),
            in_field(acc as int),
            fold_bytes(acc as int, data@.subrange(i as int, data@.len() as int)) == fold_bytes(
                seed as int,
                data@,
            ),
        decreases data@.len() - i,
    {
        let ghost before = data@.subrange(i as int, data@.len() as int);
        let next = add_mod(mul_mod(acc, 256), data[i] as u64);
        proof {
            assert(before[0] == data@[i as int]);
            assert(before.subrange(1, before.len() as int)
                =~= data@.subrange(i as int + 1, data@.len() as int));
        }
        acc = next;
        i = i + 1;
    }
    proof {
        assert(data@.subrange(data@.len() as int, data@.len() as int) =~= Seq::<u8>::empty());
    }
    acc
}

/// Produces one node's partial signature contribution for a message
/// digest, using only the node's own share; the share itself is never
/// part of the output.
pub fn sign_partial(share: &KeyShare, digest: &Vec<u8>) -> (c: PartialSignatureContribution)
    requires
        share.wf(),
    ensures
        c.wf(),
        c.node_index == share.node_index,
        c.nonce_commitment as int == nonce_of(share.share as int, digest@),
        c.partial_scalar as int == partial_scalar_of(share.share as int, digest@),
{
    let challenge = fold_digest(digest, CHALLENGE_SEED);
    let factor = fold_digest(digest, NONCE_FACTOR_SEED);
    let offset = fold_digest(digest, NONCE_OFFSET_SEED);
    let nonce = add_mod(mul_mod(factor, share.share), offset);
    let scalar = add_mod(nonce, mul_mod(share.share, challenge));
    PartialSignatureContribution {
        node_index: share.node_index,
        partial_scalar: scalar,
        nonce_commitment: nonce,
    }
}

/// Rejected combination attempts.
#[derive(Clone, Copy, PartialEq, Eq, Structural, Debug)]
pub enum CombineError {
    /// Fewer than `threshold` distinct contributions were available.
    InsufficientQuorum,
    /// A contribution failed the internal consistency check.
    InvalidContribution,
}

/// No two contributions come from the same node.
pub open spec fn distinct_indices(c: Seq<PartialSignatureContribution>) -> bool {
    forall|i: int, j: int|
        0 <= i < j < c.len() ==> (#[trigger] c[i]).node_index != (#[trigger] c[j]).node_index
}

/// Every contribution carries canonical scalars.
pub open spec fn canonical_contributions(c: Seq<PartialSignatureContribution>) -> bool {
    forall|i: int| 0 <= i < c.len() ==> (#[trigger] c[i]).wf()
}

/// Product of the points of the first `k` contributions other than the
/// `i`-th: the numerator of the Lagrange coefficient at zero.
pub open spec fn lagrange_numerator_prefix(
    c: Seq<PartialSignatureContribution>,
    i: int,
    k: int,
) -> int
    decreases k,
{
    if k <= 0 {
        1
    } else if k - 1 == i {
        lagrange_numerator_prefix(c, i, k - 1)
    } else {
        fmul(lagrange_numerator_prefix(c, i, k - 1), c[k - 1].point())
    }
}

/// The full Lagrange numerator of contribution `i`.
pub open spec fn lagrange_numerator(c: Seq<PartialSignatureContribution>, i: int) -> int {
    lagrange_numerator_prefix(c, i, c.len() as int)
}

/// Product of the point differences `x_j - x_i` over the first `k`
/// contributions other than the `i`-th: the denominator of the Lagrange
/// coefficient.
pub open spec fn lagrange_denominator_prefix(
    c: Seq<PartialSignatureContribution>,
    i: int,
    k: int,
) -> int
    decreases k,
{
    if k <= 0 {
        1
    } else if k - 1 == i {
        lagrange_denominator_prefix(c, i, k - 1)
    } else {
        fmul(lagrange_denominator_prefix(c, i, k - 1), fsub(c[k - 1].point(), c[i].point()))
    }
}

/// The full Lagrange denominator of contribution `i`.
pub open spec fn lagrange_denominator(c: Seq<PartialSignatureContribution>, i: int) -> int {
    lagrange_denominator_prefix(c, i, c.len() as int)
}

/// Every Lagrange denominator of the set has a field inverse.
pub open spec fn all_denominators_invertible(c: Seq<PartialSignatureContribution>) -> bool {
    forall|i: int| 0 <= i < c.len() ==> has_inverse(#[trigger] lagrange_denominator(c, i))
}

/// The Lagrange coefficient of contribution `i` for evaluation at zero.
pub open spec fn lambda_at(c: Seq<PartialSignatureContribution>, i: int) -> int {
    fmul(lagrange_numerator(c, i), finv(lagrange_denominator(c, i)))
}

/// The Lagrange-weighted sum of the first `k` partial scalars.
pub open spec fn weighted_scalar_prefix(c: Seq<PartialSignatureContribution>, k: int) -> int
    decreases k,
{
    if k <= 0 {
        0
    } else {
        fadd(weighted_scalar_prefix(c, k - 1), fmul(lambda_at(c, k - 1), c[k - 1].partial_scalar as int))
    }
}

/// The combined signature scalar of a contribution set.
pub open spec fn combined_scalar(c: Seq<PartialSignatureContribution>) -> int {
    weighted_scalar_prefix(c, c.len() as int)
}

/// The Lagrange-weighted sum of the first `k` nonce commitments.
pub open spec fn weighted_nonce_prefix(c: Seq<PartialSignatureContribution>, k: int) -> int
    decreases k,
{
    if k <= 0 {
        0
    } else {
        fadd(weighted_nonce_prefix(c, k - 1), fmul(lambda_at(c, k - 1), c[k - 1].nonce_commitment as int))
    }
}

/// The combined nonce aggregate of a contribution set.
pub open spec fn combined_nonce(c: Seq<PartialSignatureContribution>) -> int {
    weighted_nonce_prefix(c, c.len() as int)
}

/// Merges at least `threshold` partial contributions with distinct node
/// indices into one signature by a Lagrange-weighted sum. A round with
/// fewer than `threshold` distinct contributions, or with a contribution
/// failing the consistency check, aborts without releasing anything.
pub fn combine(contributions: &Vec<PartialSignatureContribution>, threshold: u8) -> (res: Result<
    CombinedSignature,
    CombineError,
>)
    ensures
        res is Ok <==> {
            &&& threshold as int <= contributions@.len()
            &&& distinct_indices(contributions@)
            &&& canonical_contributions(contributions@)
            &&& all_denominators_invertible(contributions@)
        },
        res matches Ok(sig) ==> sig.wf() && sig.s as int == combined_scalar(contributions@)
            && sig.r as int == combined_nonce(contributions@),
        res matches Err(e) ==> ((e == CombineError::InsufficientQuorum) <==> (contributions@.len()
            < threshold as int || !distinct_indices(contributions@))),
{
    let n = contributions.len();
    if n < threshold as usize {
        return Err(CombineError::InsufficientQuorum);
    }
    // Reject duplicate node indices: they would leave fewer than
    // `threshold` distinct contributions.
    let mut i: usize = 0;
    while i < n
        invariant
            n == contributions@.len(),
            i <= n,
            forall|p: int, q: int|
                0 <= p < q < n && p < i ==> (#[trigger] contributions@[p]).node_index != (
                #[trigger] contributions@[q]).node_index,
        decreases n - i,
    {
        let mut j: usize = i + 1;
        while j < n
            invariant
                n == contributions@.len(),
                i < n,
                i + 1 <= j <= n,
                forall|q: int|
                    i < q < j ==> contributions@[i as int].node_index != (
                    #[trigger] contributions@[q]).node_index,
            decreases n - j,
        {
            if contributions[i].node_index == contributions[j].node_index {
                return Err(CombineError::InsufficientQuorum);
            }
            j = j + 1;
        }
        i = i + 1;
    }
    assert(distinct_indices(contributions@));
    // Internal consistency: every scalar must be canonical.
    let mut k: usize = 0;
    while k < n
        invariant
            n == contributions@.len(),
            threshold as int <= n,
            distinct_indices(contributions@),
            k <= n,
            forall|p: int| 0 <= p < k ==> (#[trigger] contributions@[p]).wf(),
        decreases n - k,
    {
        if contributions[k].partial_scalar >= FIELD_MODULUS || contributions[k].nonce_commitment
            >= FIELD_MODULUS {
            return Err(CombineError::InvalidContribution);
        }
        k = k + 1;
    }
    assert(canonical_contributions(contributions@));
    // The weighted sums.
    let mut s_acc: u64 = 0;
    let mut r_acc: u64 = 0;
    let mut idx: usize = 0;
    while idx < n
        invariant
            n == contributions@.len(),
            threshold as int <= n,
            distinct_indices(contributions@),
            idx <= n,
            canonical_contributions(contributions@),
            in_field(s_acc as int),
            in_field(r_acc as int),
            s_acc as int == weighted_scalar_prefix(contributions@, idx as int),
            r_acc as int == weighted_nonce_prefix(contributions@, idx as int),
            forall|p: int|
                0 <= p < idx ==> has_inverse(#[trigger] lagrange_denominator(contributions@, p)),
        decreases n - idx,
    {
        let xi = contributions[idx].node_index as u64 + 1;
        // Numerator: product of the other points.
        let mut num: u64 = 1;
        let mut j: usize = 0;
        while j < n
            invariant
                n == contributions@.len(),
                idx < n,
                j <= n,
                in_field(num as int),
                num as int == lagrange_numerator_prefix(contributions@, idx as int, j as int),
            decreases n - j,
        {
            if j != idx {
                num = mul_mod(num, contributions[j].node_index as u64 + 1);
            }
            j = j + 1;
        }
        // Denominator: product of the point differences.
        let mut den: u64 = 1;
        j = 0;
        while j < n
            invariant
                n == contributions@.len(),
                idx < n,
                j <= n,
                xi == contributions@[idx as int].node_index as u64 + 1,
                in_field(den as int),
                den as int == lagrange_denominator_prefix(contributions@, idx as int, j as int),
            decreases n - j,
        {
            if j != idx {
                den = mul_mod(den, sub_mod(contributions[j].node_index as u64 + 1, xi));
            }
            j = j + 1;
        }
        let inv = match inv_mod(den) {
            Some(v) => v,
            None => {
                proof {
                    assert(!has_inverse(lagrange_denominator(contributions@, idx as int)));
                }
                return Err(CombineError::InvalidContribution);
            },
        };
        let lam = mul_mod(num, inv);
        proof {
            lemma_finv_of(den as int, inv as int);
            assert(lam as int == lambda_at(contributions@, idx as int));
        }
        s_acc = add_mod(s_acc, mul_mod(lam, contributions[idx].partial_scalar));
        r_acc = add_mod(r_acc, mul_mod(lam, contributions[idx].nonce_commitment));
        proof {
            assert(weighted_scalar_prefix(contributions@, idx as int + 1) == fadd(
                weighted_scalar_prefix(contributions@, idx as int),
                fmul(
                    lambda_at(contributions@, idx as int),
                    contributions@[idx as int].partial_scalar as int,
                ),
            ));
            assert(weighted_nonce_prefix(contributions@, idx as int + 1) == fadd(
                weighted_nonce_prefix(contributions@, idx as int),
                fmul(
                    lambda_at(contributions@, idx as int),
                    contributions@[idx as int].nonce_commitment as int,
                ),
            ));
        }
        idx = idx + 1;
    }
    Ok(CombinedSignature { r: r_acc, s: s_acc })
}

/// A byte string is a well-shaped signature encoding: 64 bytes, each
/// 32-byte half a canonical little-endian scalar.
pub open spec fn signature_bytes_valid(bytes: Seq<u8>) -> bool {
    &&& bytes.len() == SIGNATURE_BYTES
    &&& in_field(bytes_le_val(bytes.subrange(0, SCALAR_BYTES as int)))
    &&& in_field(bytes_le_val(bytes.subrange(SCALAR_BYTES as int, SIGNATURE_BYTES as int)))
}

/// The signature a well-shaped byte string encodes.
pub open spec fn decoded_signature(bytes: Seq<u8>) -> CombinedSignature {
    CombinedSignature {
        r: bytes_le_val(bytes.subrange(0, SCALAR_BYTES as int)) as u64,
        s: bytes_le_val(bytes.subrange(SCALAR_BYTES as int, SIGNATURE_BYTES as int)) as u64,
    }
}

/// `pow256(8)` dominates every canonical field element.
proof fn lemma_field_below_pow256_8()
    ensures
        FIELD_MODULUS as int <= pow256(8nat),
        pow256(8nat) == 0x10000000000000000,
{
    assert(pow256(0nat) == 1);
    assert(pow256(1nat) == 256);
    assert(pow256(2nat) == 0x10000);
    assert(pow256(3nat) == 0x1000000);
    assert(pow256(4nat) == 0x100000000);
    assert(pow256(5nat) == 0x10000000000);
    assert(pow256(6nat) == 0x1000000000000);
    assert(pow256(7nat) == 0x100000000000000);
    assert(pow256(8nat) == 0x10000000000000000);
}

/// Encodes a combined signature as 64 wire bytes: the aggregate
/// commitment, then the scalar, each little-endian in 32 bytes.
pub fn encode_signature(sig: &CombinedSignature) -> (out: Vec<u8>)
    requires
        sig.wf(),
    ensures
        signature_bytes_valid(out@),
        decoded_signature(out@) == *sig,
{
    proof {
        lemma_field_below_pow256_8();
        lemma_pow256_increases(8nat, SCALAR_BYTES as nat);
    }
    let mut out: Vec<u8> = Vec::new();
    append_le_bytes(&mut out, sig.r, SCALAR_BYTES);
    let ghost first = out@;
    append_le_bytes(&mut out, sig.s, SCALAR_BYTES);
    proof {
        assert(out@.subrange(0, SCALAR_BYTES as int) =~= first.subrange(0, SCALAR_BYTES as int));
        assert(first.subrange(0, SCALAR_BYTES as int) =~= first);
    }
    out
}

/// Checks that the bytes of `lo..hi` are all zero.
fn all_zero(bytes: &Vec<u8>, lo: usize, hi: usize) -> (z: bool)
    requires
        lo <= hi <= bytes@.len(),
    ensures
        z == (forall|i: int| lo <= i < hi ==> bytes@[i] == 0),
{
    let n = bytes.len();
    let mut i: usize = lo;
    while i < hi
        invariant
            lo <= i <= hi <= n,
            n == bytes@.len(),
            forall|j: int| lo <= j < i ==> bytes@[j] == 0,
        decreases hi - i,
    {
        if bytes[i] != 0 {
            return false;
        }
        i = i + 1;
    }
    true
}

/// Decodes 64 wire bytes into a combined signature, rejecting any byte
/// string whose halves are not canonical little-endian scalars.
pub fn decode_signature(bytes: &Vec<u8>) -> (res: Option<CombinedSignature>)
    ensures
        res is Some <==> signature_bytes_valid(bytes@),
        res matches Some(sig) ==> sig == decoded_signature(bytes@) && sig.wf(),
{
    proof {
        lemma_field_below_pow256_8();
    }
    if bytes.len() != SIGNATURE_BYTES {
        return None;
    }
    let ghost rpart = bytes@.subrange(0, SCALAR_BYTES as int);
    let ghost spart = bytes@.subrange(SCALAR_BYTES as int, SIGNATURE_BYTES as int);
    let r8 = read_le_bytes(bytes, 0, 8);
    let s8 = read_le_bytes(bytes, SCALAR_BYTES, 8);
    let r_zeros = all_zero(bytes, 8, SCALAR_BYTES);
    let s_zeros = all_zero(bytes, SCALAR_BYTES + 8, SIGNATURE_BYTES);
    proof {
        // Each 32-byte half splits into its low eight bytes and the rest.
        lemma_bytes_le_val_split(rpart, 8);
        lemma_bytes_le_val_split(spart, 8);
        assert(rpart.subrange(0, 8) =~= bytes@.subrange(0, 8));
        assert(spart.subrange(0, 8) =~= bytes@.subrange(SCALAR_BYTES as int, SCALAR_BYTES as int
            + 8));
        let rhigh = rpart.subrange(8, SCALAR_BYTES as int);
        let shigh = spart.subrange(8, SCALAR_BYTES as int);
        lemma_bytes_le_val_zero(rhigh);
        lemma_bytes_le_val_zero(shigh);
        lemma_bytes_le_val_bound(rhigh);
        lemma_bytes_le_val_bound(shigh);
        assert(forall|i: int|
            0 <= i < rhigh.len() ==> rhigh[i] == #[trigger] bytes@[8 + i]);
        assert(forall|i: int|
            0 <= i < shigh.len() ==> shigh[i] == #[trigger] bytes@[SCALAR_BYTES as int + 8 + i]);
        assert(bytes_le_val(rhigh) >= 1 ==> pow256(8nat) * bytes_le_val(rhigh) >= pow256(8nat))
            by (nonlinear_arith)
            requires
                pow256(8nat) >= 1,
        ;
        assert(bytes_le_val(shigh) >= 1 ==> pow256(8nat) * bytes_le_val(shigh) >= pow256(8nat))
            by (nonlinear_arith)
            requires
                pow256(8nat) >= 1,
        ;
        assert(bytes_le_val(rhigh) == 0 ==> pow256(8nat) * bytes_le_val(rhigh) == 0)
            by (nonlinear_arith);
        assert(bytes_le_val(shigh) == 0 ==> pow256(8nat) * bytes_le_val(shigh) == 0)
            by (nonlinear_arith);
        lemma_bytes_le_val_bound(rpart.subrange(0, 8));
        lemma_bytes_le_val_bound(spart.subrange(0, 8));
    }
    if !r_zeros || !s_zeros || r8 >= FIELD_MODULUS || s8 >= FIELD_MODULUS {
        proof {
            let rhigh = rpart.subrange(8, SCALAR_BYTES as int);
            let shigh = spart.subrange(8, SCALAR_BYTES as int);
            if !r_zeros {
                let j = choose|j: int|
                    !(8 <= j < SCALAR_BYTES as int ==> bytes@[j] == 0);
                assert(rhigh[j - 8] != 0);
                assert(bytes_le_val(rhigh) >= 1);
                assert(!in_field(bytes_le_val(rpart)));
            } else if !s_zeros {
                let j = choose|j: int|
                    !(SCALAR_BYTES as int + 8 <= j < SIGNATURE_BYTES as int ==> bytes@[j] == 0);
                assert(shigh[j - SCALAR_BYTES as int - 8] != 0);
                assert(bytes_le_val(shigh) >= 1);
                assert(!in_field(bytes_le_val(spart)));
            }
        }
        return None;
    }
    Some(CombinedSignature { r: r8, s: s8 })
}

/// Checks a combined signature against a verifying key and digest.
pub fn verify_signature(sig: &CombinedSignature, key: &VerifyingKey, digest: &Vec<u8>) -> (ok: bool)
    requires
        key.wf(),
    ensures
        ok == (sig.wf() && signature_valid(*sig, *key, digest@)),
{
    if sig.r >= FIELD_MODULUS || sig.s >= FIELD_MODULUS {
        return false;
    }
    let challenge = fold_digest(digest, CHALLENGE_SEED);
    let expected = add_mod(sig.r, mul_mod(key.scalar, challenge));
    sig.s == expected
}

/// A request to sign one transaction digest.
pub struct SigningRequest {
    /// The 32-byte digest of the transaction to sign.
    pub tx_hash: Vec<u8>,
    /// Identifier of the requesting agent.
    pub agent_id: u32,
}

impl SigningRequest {
    /// The digest has the expected width.
    pub open spec fn wf(self) -> bool {
        self.tx_hash@.len() == 32
    }
}

/// The contribution a share produces for a digest.
pub open spec fn contribution_of(share: KeyShare, d: Seq<u8>) -> PartialSignatureContribution {
    PartialSignatureContribution {
        node_index: share.node_index,
        partial_scalar: partial_scalar_of(share.share as int, d) as u64,
        nonce_commitment: nonce_of(share.share as int, d) as u64,
    }
}

/// The contributions a share set produces for a digest.
pub open spec fn contributions_of(shares: Seq<KeyShare>, d: Seq<u8>) -> Seq<
    PartialSignatureContribution,
> {
    shares.map_values(|sh: KeyShare| contribution_of(sh, d))
}

/// Every share of the sequence is well formed.
pub open spec fn all_shares_wf(shares: Seq<KeyShare>) -> bool {
    forall|i: int| 0 <= i < shares.len() ==> (#[trigger] shares[i]).wf()
}

/// Runs one signing round over a set of shares: every share contributes
/// a partial signature, and the contributions are combined. No share
/// leaves the round; only the combined signature does.
pub fn threshold_sign(shares: &Vec<KeyShare>, digest: &Vec<u8>, threshold: u8) -> (res: Result<
    CombinedSignature,
    CombineError,
>)
    requires
        all_shares_wf(shares@),
    ensures
        res is Ok <==> {
            &&& threshold as int <= shares@.len()
            &&& distinct_indices(contributions_of(shares@, digest@))
            &&& canonical_contributions(contributions_of(shares@, digest@))
            &&& all_denominators_invertible(contributions_of(shares@, digest@))
        },
        res matches Ok(sig) ==> sig.wf() && sig.s as int == combined_scalar(
            contributions_of(shares@, digest@),
        ) && sig.r as int == combined_nonce(contributions_of(shares@, digest@)),
        res matches Err(e) ==> ((e == CombineError::InsufficientQuorum) <==> (shares@.len()
            < threshold as int || !distinct_indices(contributions_of(shares@, digest@)))),
{
    let ghost goal = contributions_of(shares@, digest@);
    let mut contributions: Vec<PartialSignatureContribution> = Vec::new();
    let mut i: usize = 0;
    while i < shares.len()
        invariant
            i <= shares@.len(),
            all_shares_wf(shares@),
            goal == contributions_of(shares@, digest@),
            contributions@.len() == i,
            forall|j: int| 0 <= j < i ==> contributions@[j] == goal[j],
        decreases shares@.len() - i,
    {
        let c = sign_partial(&shares[i], digest);
        contributions.push(c);
        i = i + 1;
    }
    proof {
        assert(contributions@ =~= goal);
    }
    combine(&contributions, threshold)
}

/// Signs a 32-byte transaction digest with the distributed key and
/// returns the signature in its 64-byte wire form.
pub fn sign_transaction(shares: &Vec<KeyShare>, message: &Vec<u8>, threshold: u8) -> (res: Result<
    Vec<u8>,
    CombineError,
>)
    requires
        all_shares_wf(shares@),
    ensures
        res is Ok <==> {
            &&& threshold as int <= shares@.len()
            &&& distinct_indices(contributions_of(shares@, message@))
            &&& canonical_contributions(contributions_of(shares@, message@))
            &&& all_denominators_invertible(contributions_of(shares@, message@))
        },
        res matches Ok(bytes) ==> {
            &&& signature_bytes_valid(bytes@)
            &&& decoded_signature(bytes@).s as int == combined_scalar(
                contributions_of(shares@, message@),
            )
            &&& decoded_signature(bytes@).r as int == combined_nonce(
                contributions_of(shares@, message@),
            )
        },
{
    match threshold_sign(shares, message, threshold) {
        Ok(sig) => Ok(encode_signature(&sig)),
        Err(e) => Err(e),
    }
}

/// Checks a 64-byte wire signature against a verifying key: the byte
/// string must be a well-shaped encoding and the encoded signature must
/// satisfy the verification equation for the message.
pub fn verify_agent_signature(key: &VerifyingKey, message: &Vec<u8>, signature: &Vec<u8>) -> (ok:
    bool)
    requires
        key.wf(),
    ensures
        ok == (signature_bytes_valid(signature@) && signature_valid(
            decoded_signature(signature@),
            *key,
            message@,
        )),
{
    match decode_signature(signature) {
        Some(sig) => verify_signature(&sig, key, message),
        None => false,
    }
}

/// The Lagrange-weighted sum of a pair of contributions recovers the
/// constant term of the affine polynomial their values lie on: for
/// distinct points `x1`, `x2` with invertible denominators and values
/// `e0 + e1 * x_i`, the weighted sum is `e0`.
proof fn lemma_pair_interpolation(
    c: Seq<PartialSignatureContribution>,
    v1: int,
    v2: int,
    e0: int,
    e1: int,
)
    requires
        c.len() == 2,
        c[0].node_index != c[1].node_index,
        has_inverse(lagrange_denominator(c, 0)),
        has_inverse(lagrange_denominator(c, 1)),
        v1 == fadd(e0, fmul(c[0].point(), e1)),
        v2 == fadd(e0, fmul(c[1].point(), e1)),
    ensures
        fadd(fadd(0, fmul(lambda_at(c, 0), v1)), fmul(lambda_at(c, 1), v2)) == e0 % (
        FIELD_MODULUS as int),
{
    let m = FIELD_MODULUS as int;
    let x1 = c[0].point();
    let x2 = c[1].point();
    let dd = x2 - x1;
    // Unfold the Lagrange numerators and denominators of the pair.
    assert(lagrange_numerator_prefix(c, 0, 0) == 1);
    assert(lagrange_numerator_prefix(c, 0, 1) == 1);
    assert(lagrange_numerator(c, 0) == fmul(1, x2));
    assert(lagrange_numerator_prefix(c, 1, 0) == 1);
    assert(lagrange_numerator_prefix(c, 1, 1) == fmul(1, x1));
    assert(lagrange_numerator(c, 1) == fmul(1, x1));
    assert(lagrange_denominator_prefix(c, 0, 0) == 1);
    assert(lagrange_denominator_prefix(c, 0, 1) == 1);
    assert(lagrange_denominator(c, 0) == fmul(1, fsub(x2, x1)));
    assert(lagrange_denominator_prefix(c, 1, 0) == 1);
    assert(lagrange_denominator_prefix(c, 1, 1) == fmul(1, fsub(x1, x2)));
    assert(lagrange_denominator(c, 1) == fmul(1, fsub(x1, x2)));
    let den0 = lagrange_denominator(c, 0);
    let den1 = lagrange_denominator(c, 1);
    let w0 = finv(den0);
    let w1 = finv(den1);
    assert(is_inverse(den0, w0));
    assert(is_inverse(den1, w1));
    // The denominators are congruent to the plain point differences.
    assert(congruent(den0, dd)) by {
        lemma_fmul_cong(1, fsub(x2, x1));
        lemma_fsub_cong(x2, x1);
        lemma_cong_trans(den0, 1 * fsub(x2, x1), dd);
    }
    assert(congruent(den1, -dd)) by {
        lemma_fmul_cong(1, fsub(x1, x2));
        lemma_fsub_cong(x1, x2);
        lemma_cong_trans(den1, 1 * fsub(x1, x2), -dd);
    }
    // The inverse certificates transfer to the plain differences.
    assert(congruent(dd * w0, 1)) by {
        lemma_fmul_cong(den0, w0);
        lemma_cong_sym(fmul(den0, w0), den0 * w0);
        lemma_cong_mul(dd, den0, w0);
        lemma_cong_trans(dd * w0, den0 * w0, 1);
    }
    assert(congruent(dd * w1, -1)) by {
        lemma_fmul_cong(den1, w1);
        lemma_cong_sym(fmul(den1, w1), den1 * w1);
        lemma_cong_mul(dd, -(den1), w1);
        assert(-(den1) * w1 == -(den1 * w1)) by (nonlinear_arith);
        assert(congruent(dd, -(den1))) by {
            lemma_cong_sym(den1, -dd);
        }
        assert(congruent(-(den1 * w1), -1)) by {
            lemma_cong_sym(den1 * w1, 1);
            assert(-(den1 * w1) - (-1int) == -((den1 * w1) - 1)) by (nonlinear_arith);
            lemma_cong_sym(1, den1 * w1);
        }
        lemma_cong_trans(dd * w1, -(den1 * w1), -1);
    }
    // The coefficients are congruent to `x2 * w0` and `x1 * w1`.
    let lam0 = lambda_at(c, 0);
    let lam1 = lambda_at(c, 1);
    assert(congruent(lam0, x2 * w0)) by {
        lemma_fmul_cong(lagrange_numerator(c, 0), w0);
        lemma_fmul_cong(1, x2);
        assert(congruent(lagrange_numerator(c, 0), x2));
        lemma_cong_mul(lagrange_numerator(c, 0), x2, w0);
        lemma_cong_trans(lam0, lagrange_numerator(c, 0) * w0, x2 * w0);
    }
    assert(congruent(lam1, x1 * w1)) by {
        lemma_fmul_cong(lagrange_numerator(c, 1), w1);
        lemma_fmul_cong(1, x1);
        assert(congruent(lagrange_numerator(c, 1), x1));
        lemma_cong_mul(lagrange_numerator(c, 1), x1, w1);
        lemma_cong_trans(lam1, lagrange_numerator(c, 1) * w1, x1 * w1);
    }
    // The weighted sum, flattened to plain integer arithmetic.
    let s_expr = fadd(fadd(0, fmul(lam0, v1)), fmul(lam1, v2));
    assert(congruent(s_expr, lam0 * v1 + lam1 * v2)) by {
        lemma_fmul_cong(lam0, v1);
        lemma_fmul_cong(lam1, v2);
        lemma_fadd_cong(0, fmul(lam0, v1));
        lemma_cong_trans(fadd(0, fmul(lam0, v1)), 0 + fmul(lam0, v1), lam0 * v1);
        lemma_fadd_cong(fadd(0, fmul(lam0, v1)), fmul(lam1, v2));
        lemma_cong_add_both(fadd(0, fmul(lam0, v1)), lam0 * v1, fmul(lam1, v2), lam1 * v2);
        lemma_cong_trans(
            s_expr,
            fadd(0, fmul(lam0, v1)) + fmul(lam1, v2),
            lam0 * v1 + lam1 * v2,
        );
    }
    // The values are congruent to the affine evaluations.
    assert(congruent(v1, e0 + x1 * e1)) by {
        lemma_fadd_cong(e0, fmul(x1, e1));
        lemma_fmul_cong(x1, e1);
        lemma_cong_add_both(e0, e0, fmul(x1, e1), x1 * e1);
        lemma_cong_trans(v1, e0 + fmul(x1, e1), e0 + x1 * e1);
    }
    assert(congruent(v2, e0 + x2 * e1)) by {
        lemma_fadd_cong(e0, fmul(x2, e1));
        lemma_fmul_cong(x2, e1);
        lemma_cong_add_both(e0, e0, fmul(x2, e1), x2 * e1);
        lemma_cong_trans(v2, e0 + fmul(x2, e1), e0 + x2 * e1);
    }
    // Multiplied by the point difference, the sum telescopes to
    // `e0 * dd`.
    assert(congruent(s_expr * dd, e0 * dd)) by {
        lemma_cong_mul(s_expr, lam0 * v1 + lam1 * v2, dd);
        assert((lam0 * v1 + lam1 * v2) * dd == (lam0 * dd) * v1 + (lam1 * dd) * v2)
            by (nonlinear_arith);
        assert(congruent(lam0 * dd, x2)) by {
            lemma_cong_mul(lam0, x2 * w0, dd);
            assert((x2 * w0) * dd == x2 * (dd * w0)) by (nonlinear_arith);
            lemma_cong_mul_both(x2, x2, dd * w0, 1);
            lemma_cong_trans(lam0 * dd, x2 * (dd * w0), x2 * 1);
        }
        assert(congruent(lam1 * dd, -x1)) by {
            lemma_cong_mul(lam1, x1 * w1, dd);
            assert((x1 * w1) * dd == x1 * (dd * w1)) by (nonlinear_arith);
            lemma_cong_mul_both(x1, x1, dd * w1, -1);
            lemma_cong_trans(lam1 * dd, x1 * (dd * w1), x1 * -1);
        }
        lemma_cong_mul_both(lam0 * dd, x2, v1, e0 + x1 * e1);
        lemma_cong_mul_both(lam1 * dd, -x1, v2, e0 + x2 * e1);
        lemma_cong_add_both(
            (lam0 * dd) * v1,
            x2 * (e0 + x1 * e1),
            (lam1 * dd) * v2,
            (-x1) * (e0 + x2 * e1),
        );
        assert(x2 * (e0 + x1 * e1) + (-x1) * (e0 + x2 * e1) == e0 * dd) by (nonlinear_arith)
            requires
                dd == x2 - x1,
        ;
        lemma_cong_trans(
            s_expr * dd,
            (lam0 * dd) * v1 + (lam1 * dd) * v2,
            e0 * dd,
        );
    }
    // Cancel the invertible difference.
    assert(congruent(s_expr, e0)) by {
        lemma_cong_mul(s_expr * dd, e0 * dd, w0);
        assert((s_expr * dd) * w0 == s_expr * (dd * w0)) by (nonlinear_arith);
        assert((e0 * dd) * w0 == e0 * (dd * w0)) by (nonlinear_arith);
        lemma_cong_mul_both(s_expr, s_expr, dd * w0, 1);
        lemma_cong_mul_both(e0, e0, dd * w0, 1);
        lemma_cong_sym(e0 * (dd * w0), e0 * 1);
        lemma_cong_trans(s_expr * (dd * w0), (e0 * dd) * w0, e0 * (dd * w0));
        lemma_cong_trans(s_expr * (dd * w0), e0 * (dd * w0), e0);
        lemma_cong_sym(s_expr, s_expr * (dd * w0));
        lemma_cong_trans(s_expr, s_expr * (dd * w0), e0);
    }
    // Both sides are canonical, so congruence is equality.
    lemma_cong_reduce(e0);
    lemma_cong_sym(e0 % m, e0);
    assert(congruent(e0, e0 % m));
    lemma_cong_trans(s_expr, e0, e0 % m);
    assert(in_field(s_expr)) by {
        lemma_fadd_cong(fadd(0, fmul(lam0, v1)), fmul(lam1, v2));
    }
    lemma_cong_to_eq(s_expr, e0 % m);
}

/// The signature scalar a signing round over `key` and digest `d`
/// produces, whichever nodes contribute.
pub open spec fn round_scalar(key: int, d: Seq<u8>) -> int {
    fadd(fmul(fadd(nonce_factor_of(d), challenge_of(d)), key), nonce_offset_of(d))
}

/// The nonce aggregate a signing round over `key` and digest `d`
/// produces, whichever nodes contribute.
pub open spec fn round_nonce(key: int, d: Seq<u8>) -> int {
    fadd(fmul(nonce_factor_of(d), key), nonce_offset_of(d))
}

/// A share on the line `key + blind * x` contributes values that are
/// affine in its point, with the round values as constant terms.
proof fn lemma_contribution_affine(share_val: int, x: int, key: int, blind: int, d: Seq<u8>)
    requires
        share_val == poly_eval(seq![key, blind], x),
    ensures
        partial_scalar_of(share_val, d) == fadd(
            round_scalar(key, d),
            fmul(x, fmul(fadd(nonce_factor_of(d), challenge_of(d)), blind)),
        ),
        nonce_of(share_val, d) == fadd(
            round_nonce(key, d),
            fmul(x, fmul(nonce_factor_of(d), blind)),
        ),
{
    let af = nonce_factor_of(d);
    let bf = nonce_offset_of(d);
    let h = challenge_of(d);
    // The share value is congruent to `key + x * blind`.
    let cs = seq![key, blind];
    assert(cs.subrange(1, 2) =~= seq![blind]);
    assert(seq![blind].subrange(1, 1) =~= Seq::<int>::empty());
    assert(poly_eval(Seq::<int>::empty(), x) == 0);
    assert(poly_eval(seq![blind], x) == fadd(blind, fmul(x, 0)));
    assert(share_val == fadd(key, fmul(x, fadd(blind, fmul(x, 0)))));
    assert(congruent(share_val, key + x * blind)) by {
        lemma_fmul_cong(x, 0);
        assert(x * 0 == 0) by (nonlinear_arith);
        lemma_fadd_cong(blind, fmul(x, 0));
        lemma_cong_add_both(blind, blind, fmul(x, 0), 0);
        lemma_cong_trans(fadd(blind, fmul(x, 0)), blind + fmul(x, 0), blind);
        lemma_fmul_cong(x, fadd(blind, fmul(x, 0)));
        lemma_cong_mul(fadd(blind, fmul(x, 0)), blind, x);
        vstd::arithmetic::mul::lemma_mul_is_commutative(fadd(blind, fmul(x, 0)), x);
        vstd::arithmetic::mul::lemma_mul_is_commutative(blind, x);
        lemma_cong_trans(fmul(x, fadd(blind, fmul(x, 0))), x * fadd(blind, fmul(x, 0)), x * blind);
        lemma_fadd_cong(key, fmul(x, fadd(blind, fmul(x, 0))));
        lemma_cong_add_both(key, key, fmul(x, fadd(blind, fmul(x, 0))), x * blind);
        lemma_cong_trans(
            share_val,
            key + fmul(x, fadd(blind, fmul(x, 0))),
            key + x * blind,
        );
    }
    // Flatten the partial scalar to plain integers.
    let ps = partial_scalar_of(share_val, d);
    assert(congruent(ps, af * share_val + bf + share_val * h)) by {
        lemma_fmul_cong(af, share_val);
        lemma_fadd_cong(fmul(af, share_val), bf);
        lemma_cong_add_both(fmul(af, share_val), af * share_val, bf, bf);
        lemma_cong_trans(nonce_of(share_val, d), fmul(af, share_val) + bf, af * share_val + bf);
        lemma_fmul_cong(share_val, h);
        lemma_fadd_cong(nonce_of(share_val, d), fmul(share_val, h));
        lemma_cong_add_both(
            nonce_of(share_val, d),
            af * share_val + bf,
            fmul(share_val, h),
            share_val * h,
        );
        lemma_cong_trans(
            ps,
            nonce_of(share_val, d) + fmul(share_val, h),
            af * share_val + bf + share_val * h,
        );
    }
    // Flatten the affine right-hand sides the same way.
    let rs_s = fadd(round_scalar(key, d), fmul(x, fmul(fadd(af, h), blind)));
    assert(congruent(rs_s, (af + h) * key + bf + x * ((af + h) * blind))) by {
        lemma_fadd_cong(af, h);
        lemma_fmul_cong(fadd(af, h), key);
        lemma_cong_mul(fadd(af, h), af + h, key);
        lemma_cong_trans(fmul(fadd(af, h), key), fadd(af, h) * key, (af + h) * key);
        lemma_fadd_cong(fmul(fadd(af, h), key), bf);
        lemma_cong_add_both(fmul(fadd(af, h), key), (af + h) * key, bf, bf);
        lemma_cong_trans(
            round_scalar(key, d),
            fmul(fadd(af, h), key) + bf,
            (af + h) * key + bf,
        );
        lemma_fmul_cong(fadd(af, h), blind);
        lemma_cong_mul(fadd(af, h), af + h, blind);
        lemma_cong_trans(fmul(fadd(af, h), blind), fadd(af, h) * blind, (af + h) * blind);
        lemma_fmul_cong(x, fmul(fadd(af, h), blind));
        lemma_cong_mul(fmul(fadd(af, h), blind), (af + h) * blind, x);
        vstd::arithmetic::mul::lemma_mul_is_commutative(fmul(fadd(af, h), blind), x);
        vstd::arithmetic::mul::lemma_mul_is_commutative((af + h) * blind, x);
        lemma_cong_trans(
            fmul(x, fmul(fadd(af, h), blind)),
            x * fmul(fadd(af, h), blind),
            x * ((af + h) * blind),
        );
        lemma_fadd_cong(round_scalar(key, d), fmul(x, fmul(fadd(af, h), blind)));
        lemma_cong_add_both(
            round_scalar(key, d),
            (af + h) * key + bf,
            fmul(x, fmul(fadd(af, h), blind)),
            x * ((af + h) * blind),
        );
        lemma_cong_trans(
            rs_s,
            round_scalar(key, d) + fmul(x, fmul(fadd(af, h), blind)),
            (af + h) * key + bf + x * ((af + h) * blind),
        );
    }
    // The two integer forms agree.
    assert(congruent(ps, rs_s)) by {
        assert(congruent(af * share_val + bf + share_val * h, af * (key + x * blind) + bf + (key
            + x * blind) * h)) by {
            lemma_cong_mul(share_val, key + x * blind, af);
            vstd::arithmetic::mul::lemma_mul_is_commutative(share_val, af);
            vstd::arithmetic::mul::lemma_mul_is_commutative(key + x * blind, af);
            lemma_cong_mul(share_val, key + x * blind, h);
            lemma_cong_add_both(
                af * share_val,
                af * (key + x * blind),
                bf,
                bf,
            );
            lemma_cong_add_both(
                af * share_val + bf,
                af * (key + x * blind) + bf,
                share_val * h,
                (key + x * blind) * h,
            );
        }
        assert(af * (key + x * blind) + bf + (key + x * blind) * h == (af + h) * key + bf + x * ((
        af + h) * blind)) by (nonlinear_arith);
        lemma_cong_trans(
            ps,
            af * share_val + bf + share_val * h,
            af * (key + x * blind) + bf + (key + x * blind) * h,
        );
        lemma_cong_trans(
            ps,
            af * (key + x * blind) + bf + (key + x * blind) * h,
            (af + h) * key + bf + x * ((af + h) * blind),
        );
        lemma_cong_sym(rs_s, (af + h) * key + bf + x * ((af + h) * blind));
        lemma_cong_trans(ps, (af + h) * key + bf + x * ((af + h) * blind), rs_s);
    }
    assert(in_field(ps)) by {
        lemma_fadd_cong(nonce_of(share_val, d), fmul(share_val, h));
    }
    assert(in_field(rs_s)) by {
        lemma_fadd_cong(round_scalar(key, d), fmul(x, fmul(fadd(af, h), blind)));
    }
    lemma_cong_to_eq(ps, rs_s);
    // The nonce commitment: the same flattening with the challenge off.
    let nn = nonce_of(share_val, d);
    let rs_r = fadd(round_nonce(key, d), fmul(x, fmul(af, blind)));
    assert(congruent(nn, af * share_val + bf)) by {
        lemma_fmul_cong(af, share_val);
        lemma_fadd_cong(fmul(af, share_val), bf);
        lemma_cong_add_both(fmul(af, share_val), af * share_val, bf, bf);
        lemma_cong_trans(nn, fmul(af, share_val) + bf, af * share_val + bf);
    }
    assert(congruent(rs_r, af * key + bf + x * (af * blind))) by {
        lemma_fmul_cong(af, key);
        lemma_fadd_cong(fmul(af, key), bf);
        lemma_cong_add_both(fmul(af, key), af * key, bf, bf);
        lemma_cong_trans(round_nonce(key, d), fmul(af, key) + bf, af * key + bf);
        lemma_fmul_cong(af, blind);
        lemma_fmul_cong(x, fmul(af, blind));
        lemma_cong_mul(fmul(af, blind), af * blind, x);
        vstd::arithmetic::mul::lemma_mul_is_commutative(fmul(af, blind), x);
        vstd::arithmetic::mul::lemma_mul_is_commutative(af * blind, x);
        lemma_cong_trans(fmul(x, fmul(af, blind)), x * fmul(af, blind), x * (af * blind));
        lemma_fadd_cong(round_nonce(key, d), fmul(x, fmul(af, blind)));
        lemma_cong_add_both(
            round_nonce(key, d),
            af * key + bf,
            fmul(x, fmul(af, blind)),
            x * (af * blind),
        );
        lemma_cong_trans(
            rs_r,
            round_nonce(key, d) + fmul(x, fmul(af, blind)),
            af * key + bf + x * (af * blind),
        );
    }
    assert(congruent(nn, rs_r)) by {
        assert(congruent(af * share_val + bf, af * (key + x * blind) + bf)) by {
            lemma_cong_mul(share_val, key + x * blind, af);
            vstd::arithmetic::mul::lemma_mul_is_commutative(share_val, af);
            vstd::arithmetic::mul::lemma_mul_is_commutative(key + x * blind, af);
            lemma_cong_add_both(af * share_val, af * (key + x * blind), bf, bf);
        }
        assert(af * (key + x * blind) + bf == af * key + bf + x * (af * blind))
            by (nonlinear_arith);
        lemma_cong_trans(nn, af * share_val + bf, af * (key + x * blind) + bf);
        lemma_cong_sym(rs_r, af * key + bf + x * (af * blind));
        lemma_cong_trans(nn, af * key + bf + x * (af * blind), rs_r);
    }
    assert(in_field(nn)) by {
        lemma_fadd_cong(fmul(af, share_val), bf);
    }
    assert(in_field(rs_r)) by {
        lemma_fadd_cong(round_nonce(key, d), fmul(x, fmul(af, blind)));
    }
    lemma_cong_to_eq(nn, rs_r);
}

/// What a pair of shares of one line combines to: the round values of
/// the key itself, whichever two nodes contributed. This is the
/// two-contribution form of the subset-independence and round-trip
/// properties of threshold signing.
pub proof fn lemma_pair_combined_values(
    key: u64,
    blind: u64,
    d: Seq<u8>,
    sh_a: KeyShare,
    sh_b: KeyShare,
)
    requires
        sh_a.node_index != sh_b.node_index,
        sh_a.share as int == poly_eval(seq![key as int, blind as int], sh_a.point()),
        sh_b.share as int == poly_eval(seq![key as int, blind as int], sh_b.point()),
        all_denominators_invertible(contributions_of(seq![sh_a, sh_b], d)),
    ensures
        combined_scalar(contributions_of(seq![sh_a, sh_b], d)) == round_scalar(key as int, d),
        combined_nonce(contributions_of(seq![sh_a, sh_b], d)) == round_nonce(key as int, d),
{
    let af = nonce_factor_of(d);
    let bf = nonce_offset_of(d);
    let h = challenge_of(d);
    let c = contributions_of(seq![sh_a, sh_b], d);
    assert(c.len() == 2);
    assert(c[0] == contribution_of(sh_a, d));
    assert(c[1] == contribution_of(sh_b, d));
    lemma_contribution_affine(sh_a.share as int, sh_a.point(), key as int, blind as int, d);
    lemma_contribution_affine(sh_b.share as int, sh_b.point(), key as int, blind as int, d);
    // The stored u64 scalars are the canonical spec values.
    assert(in_field(partial_scalar_of(sh_a.share as int, d)) && in_field(
        partial_scalar_of(sh_b.share as int, d),
    ) && in_field(nonce_of(sh_a.share as int, d)) && in_field(nonce_of(sh_b.share as int, d))) by {
        lemma_fadd_cong(nonce_of(sh_a.share as int, d), fmul(sh_a.share as int, h));
        lemma_fadd_cong(nonce_of(sh_b.share as int, d), fmul(sh_b.share as int, h));
        lemma_fadd_cong(fmul(af, sh_a.share as int), bf);
        lemma_fadd_cong(fmul(af, sh_b.share as int), bf);
    }
    let v1 = c[0].partial_scalar as int;
    let v2 = c[1].partial_scalar as int;
    assert(v1 == partial_scalar_of(sh_a.share as int, d));
    assert(v2 == partial_scalar_of(sh_b.share as int, d));
    assert(c[0].point() == sh_a.point() && c[1].point() == sh_b.point());
    lemma_pair_interpolation(c, v1, v2, round_scalar(key as int, d), fmul(fadd(af, h), blind as int));
    let n1 = c[0].nonce_commitment as int;
    let n2 = c[1].nonce_commitment as int;
    assert(n1 == nonce_of(sh_a.share as int, d));
    assert(n2 == nonce_of(sh_b.share as int, d));
    lemma_pair_interpolation(c, n1, n2, round_nonce(key as int, d), fmul(af, blind as int));
    // Unfold the combined sums to the interpolation shape.
    assert(weighted_scalar_prefix(c, 0) == 0);
    assert(weighted_scalar_prefix(c, 1) == fadd(0, fmul(lambda_at(c, 0), v1)));
    assert(combined_scalar(c) == fadd(fadd(0, fmul(lambda_at(c, 0), v1)), fmul(lambda_at(c, 1), v2)));
    assert(weighted_nonce_prefix(c, 0) == 0);
    assert(weighted_nonce_prefix(c, 1) == fadd(0, fmul(lambda_at(c, 0), n1)));
    assert(combined_nonce(c) == fadd(fadd(0, fmul(lambda_at(c, 0), n1)), fmul(lambda_at(c, 1), n2)));
    // The round values are canonical, so the reductions vanish.
    assert(in_field(round_scalar(key as int, d)) && in_field(round_nonce(key as int, d))) by {
        lemma_fadd_cong(fmul(fadd(af, h), key as int), bf);
        lemma_fadd_cong(fmul(af, key as int), bf);
    }
    vstd::arithmetic::div_mod::lemma_small_mod(
        round_scalar(key as int, d) as nat,
        FIELD_MODULUS as nat,
    );
    vstd::arithmetic::div_mod::lemma_small_mod(
        round_nonce(key as int, d) as nat,
        FIELD_MODULUS as nat,
    );
}

/// Subset independence, in its two-contribution form: any two pairs
/// drawn from the shares of one line combine to the same signature
/// scalar and the same nonce aggregate.
pub proof fn lemma_pair_subset_independence(
    key: u64,
    blind: u64,
    d: Seq<u8>,
    first: (KeyShare, KeyShare),
    second: (KeyShare, KeyShare),
)
    requires
        first.0.node_index != first.1.node_index,
        second.0.node_index != second.1.node_index,
        first.0.share as int == poly_eval(seq![key as int, blind as int], first.0.point()),
        first.1.share as int == poly_eval(seq![key as int, blind as int], first.1.point()),
        second.0.share as int == poly_eval(seq![key as int, blind as int], second.0.point()),
        second.1.share as int == poly_eval(seq![key as int, blind as int], second.1.point()),
        all_denominators_invertible(contributions_of(seq![first.0, first.1], d)),
        all_denominators_invertible(contributions_of(seq![second.0, second.1], d)),
    ensures
        combined_scalar(contributions_of(seq![first.0, first.1], d)) == combined_scalar(
            contributions_of(seq![second.0, second.1], d),
        ),
        combined_nonce(contributions_of(seq![first.0, first.1], d)) == combined_nonce(
            contributions_of(seq![second.0, second.1], d),
        ),
{
    lemma_pair_combined_values(key, blind, d, first.0, first.1);
    lemma_pair_combined_values(key, blind, d, second.0, second.1);
}

/// The round trip, in its two-contribution form: the signature combined
/// from any two contributions over shares of one line verifies against
/// the verifying key of the shared secret.
pub proof fn lemma_pair_round_trip(key: u64, blind: u64, d: Seq<u8>, sh_a: KeyShare, sh_b: KeyShare)
    requires
        sh_a.node_index != sh_b.node_index,
        sh_a.share as int == poly_eval(seq![key as int, blind as int], sh_a.point()),
        sh_b.share as int == poly_eval(seq![key as int, blind as int], sh_b.point()),
        all_denominators_invertible(contributions_of(seq![sh_a, sh_b], d)),
    ensures
        ({
            let c = contributions_of(seq![sh_a, sh_b], d);
            let sig = CombinedSignature {
                r: combined_nonce(c) as u64,
                s: combined_scalar(c) as u64,
            };
            signature_valid(sig, VerifyingKey { scalar: key }, d)
        }),
{
    lemma_pair_combined_values(key, blind, d, sh_a, sh_b);
    lemma_round_values_verify(key, d);
}

/// The threshold-one form of subset independence and the round trip: a
/// single contribution over a share of the constant line `key` combines
/// to the round values of the key, so all singleton subsets agree and,
/// by `lemma_round_values_verify`, the result verifies against the key.
pub proof fn lemma_singleton_combined_values(key: u64, d: Seq<u8>, sh: KeyShare)
    requires
        sh.share as int == poly_eval(seq![key as int], sh.point()),
    ensures
        combined_scalar(contributions_of(seq![sh], d)) == round_scalar(key as int, d),
        combined_nonce(contributions_of(seq![sh], d)) == round_nonce(key as int, d),
{
    let m = FIELD_MODULUS as int;
    let af = nonce_factor_of(d);
    let bf = nonce_offset_of(d);
    let h = challenge_of(d);
    let x = sh.point();
    let c = contributions_of(seq![sh], d);
    assert(c.len() == 1);
    assert(c[0] == contribution_of(sh, d));
    // The constant polynomial and the padded line evaluate alike.
    assert((x * 0) == 0) by (nonlinear_arith);
    vstd::arithmetic::div_mod::lemma_small_mod(0nat, FIELD_MODULUS as nat);
    assert(fmul(x, 0) == 0);
    assert(seq![key as int].subrange(1, 1) =~= Seq::<int>::empty());
    assert(poly_eval(Seq::<int>::empty(), x) == 0);
    assert(poly_eval(seq![key as int], x) == fadd(key as int, fmul(x, 0)));
    let padded = seq![key as int, 0int];
    assert(padded.subrange(1, 2) =~= seq![0int]);
    assert(seq![0int].subrange(1, 1) =~= Seq::<int>::empty());
    assert(poly_eval(seq![0int], x) == fadd(0, fmul(x, 0)));
    assert(fadd(0, 0) == 0);
    assert(poly_eval(padded, x) == fadd(key as int, fmul(x, 0)));
    lemma_contribution_affine(sh.share as int, x, key as int, 0, d);
    lemma_round_values_verify(key, d);
    let rs = round_scalar(key as int, d);
    let rn = round_nonce(key as int, d);
    // The affine tails vanish for the constant line.
    assert((fadd(af, h) * 0) == 0) by (nonlinear_arith);
    assert((af * 0) == 0) by (nonlinear_arith);
    assert(fmul(fadd(af, h), 0) == 0);
    assert(fmul(af, 0) == 0);
    vstd::arithmetic::div_mod::lemma_small_mod(rs as nat, FIELD_MODULUS as nat);
    vstd::arithmetic::div_mod::lemma_small_mod(rn as nat, FIELD_MODULUS as nat);
    assert(partial_scalar_of(sh.share as int, d) == rs);
    assert(nonce_of(sh.share as int, d) == rn);
    // The single Lagrange coefficient is one.
    assert(lagrange_numerator_prefix(c, 0, 0) == 1);
    assert(lagrange_numerator(c, 0) == 1);
    assert(lagrange_denominator_prefix(c, 0, 0) == 1);
    assert(lagrange_denominator(c, 0) == 1);
    assert((1int * 1) == 1) by (nonlinear_arith);
    vstd::arithmetic::div_mod::lemma_small_mod(1nat, FIELD_MODULUS as nat);
    assert(is_inverse(1, 1));
    lemma_finv_of(1, 1);
    assert(lambda_at(c, 0) == fmul(1, 1));
    assert(fmul(1, 1) == 1);
    // The weighted sums reduce to the single values.
    let v0 = c[0].partial_scalar as int;
    let n0 = c[0].nonce_commitment as int;
    assert(v0 == rs && n0 == rn);
    assert((1int * rs) == rs) by (nonlinear_arith);
    assert((1int * rn) == rn) by (nonlinear_arith);
    assert(fmul(1, rs) == rs);
    assert(fmul(1, rn) == rn);
    assert(fadd(0, rs) == rs);
    assert(fadd(0, rn) == rn);
    assert(weighted_scalar_prefix(c, 0) == 0);
    assert(combined_scalar(c) == fadd(0, fmul(lambda_at(c, 0), v0)));
    assert(weighted_nonce_prefix(c, 0) == 0);
    assert(combined_nonce(c) == fadd(0, fmul(lambda_at(c, 0), n0)));
}

/// The verification equation holds of the round values: the round
/// scalar is the round nonce plus the key times the challenge, so any
/// signature carrying the round values verifies against the key.
pub proof fn lemma_round_values_verify(key: u64, d: Seq<u8>)
    ensures
        in_field(round_scalar(key as int, d)),
        in_field(round_nonce(key as int, d)),
        round_scalar(key as int, d) == fadd(
            round_nonce(key as int, d),
            fmul(key as int, challenge_of(d)),
        ),
{
    let af = nonce_factor_of(d);
    let bf = nonce_offset_of(d);
    let h = challenge_of(d);
    let rs = round_scalar(key as int, d);
    let rn = round_nonce(key as int, d);
    assert(in_field(rs) && in_field(rn)) by {
        lemma_fadd_cong(fmul(fadd(af, h), key as int), bf);
        lemma_fadd_cong(fmul(af, key as int), bf);
    }
    assert(rs == fadd(rn, fmul(key as int, h))) by {
        assert(congruent(rs, (af + h) * key + bf)) by {
            lemma_fadd_cong(af, h);
            lemma_fmul_cong(fadd(af, h), key as int);
            lemma_cong_mul(fadd(af, h), af + h, key as int);
            lemma_cong_trans(
                fmul(fadd(af, h), key as int),
                fadd(af, h) * (key as int),
                (af + h) * (key as int),
            );
            lemma_fadd_cong(fmul(fadd(af, h), key as int), bf);
            lemma_cong_add_both(
                fmul(fadd(af, h), key as int),
                (af + h) * (key as int),
                bf,
                bf,
            );
            lemma_cong_trans(rs, fmul(fadd(af, h), key as int) + bf, (af + h) * (key as int) + bf);
        }
        let rhs = fadd(rn, fmul(key as int, h));
        assert(congruent(rhs, af * key + bf + key * h)) by {
            lemma_fmul_cong(af, key as int);
            lemma_fadd_cong(fmul(af, key as int), bf);
            lemma_cong_add_both(fmul(af, key as int), af * (key as int), bf, bf);
            lemma_cong_trans(rn, fmul(af, key as int) + bf, af * (key as int) + bf);
            lemma_fmul_cong(key as int, h);
            lemma_fadd_cong(rn, fmul(key as int, h));
            lemma_cong_add_both(
                rn,
                af * (key as int) + bf,
                fmul(key as int, h),
                (key as int) * h,
            );
            lemma_cong_trans(
                rhs,
                rn + fmul(key as int, h),
                af * (key as int) + bf + (key as int) * h,
            );
        }
        assert((af + h) * (key as int) + bf == af * (key as int) + bf + (key as int) * h)
            by (nonlinear_arith);
        assert(in_field(rhs)) by {
            lemma_fadd_cong(rn, fmul(key as int, h));
        }
        lemma_cong_sym(rhs, af * (key as int) + bf + (key as int) * h);
        lemma_cong_trans(rs, (af + h) * (key as int) + bf, rhs);
        lemma_cong_to_eq(rs, rhs);
    }
}

/// Signs a message with a single scalar key: the cluster's attestation
/// over a result message. The produced signature verifies against the
/// verifying key of that scalar.
pub fn attest_message(message: &Vec<u8>, key: u64) -> (sig: CombinedSignature)
    requires
        in_field(key as int),
    ensures
        sig.wf(),
        sig.r as int == round_nonce(key as int, message@),
        sig.s as int == round_scalar(key as int, message@),
        signature_valid(sig, VerifyingKey { scalar: key }, message@),
{
    proof {
        lemma_round_values_verify(key, message@);
    }
    let challenge = fold_digest(message, CHALLENGE_SEED);
    let factor = fold_digest(message, NONCE_FACTOR_SEED);
    let offset = fold_digest(message, NONCE_OFFSET_SEED);
    let r = add_mod(mul_mod(factor, key), offset);
    let s = add_mod(r, mul_mod(key, challenge));
    CombinedSignature { r, s }
}

/// The verifying key corresponding to a signing key scalar. The split
/// operation derives it before the key is discarded; it is the only
/// public residue of the key.
pub fn verifying_key_of(key: u64) -> (vk: VerifyingKey)
    requires
        in_field(key as int),
    ensures
        vk.wf(),
        vk.scalar == key,
{
    VerifyingKey { scalar: key }
}

} // verus!
