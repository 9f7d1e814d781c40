//! Secret sharing: splitting a signing key into `n` shares, any `t` of
//! which determine the key's behaviour.
//!
//! The key becomes the constant term of a polynomial of degree `t - 1`
//! over the scalar field; node `i` receives the evaluation at the nonzero
//! point `i + 1`. The caller supplies the blinding coefficients as fresh
//! entropy, so that fewer than `t` shares carry no information about the
//! key; no operation of this crate ever rebuilds the key from shares.

use vstd::prelude::*;
use crate::field::{add_mod, fadd, fmul, in_field, mul_mod};

verus! {

/// One node's share of the signing key.
#[derive(Clone, Copy, PartialEq, Eq, Structural, Debug)]
pub struct KeyShare {
    /// Share of the private key scalar: the polynomial evaluated at this
    /// node's point.
    pub share: u64,
    /// Node index in the cluster, `0 .. total_nodes`.
    pub node_index: u8,
    /// Number of shares required for signing.
    pub threshold: u8,
    /// Number of nodes the key was split across.
    pub total_nodes: u8,
}

impl KeyShare {
    /// A share is well formed when its scalar is canonical and its
    /// position and threshold are consistent with the cluster size.
    pub open spec fn wf(self) -> bool {
        &&& in_field(self.share as int)
        &&& (self.node_index as int) < (self.total_nodes as int)
        &&& 1 <= (self.threshold as int) <= (self.total_nodes as int)
    }

    /// The nonzero field point this share was evaluated at.
    pub open spec fn point(self) -> int {
        self.node_index as int + 1
    }
}

/// The sequence of `u64` values read as mathematical integers.
pub open spec fn seq_int(s: Seq<u64>) -> Seq<int> {
    s.map_values(|v: u64| v as int)
}

/// Every element of the sequence is a canonical field element.
pub open spec fn all_in_field(s: Seq<u64>) -> bool {
    forall|i: int| 0 <= i < s.len() ==> in_field(#[trigger] s[i] as int)
}

/// Evaluation of the polynomial with coefficient list `coeffs`
/// (constant term first) at `x`, in the field.
pub open spec fn poly_eval(coeffs: Seq<int>, x: int) -> int
    decreases coeffs.len(),
{
    if coeffs.len() == 0 {
        0
    } else {
        fadd(coeffs[0], fmul(x, poly_eval(coeffs.subrange(1, coeffs.len() as int), x)))
    }
}

/// The sharing polynomial: the key as constant term, then the first
/// `threshold - 1` entropy words as blinding coefficients.
pub open spec fn share_poly(key: u64, entropy: Seq<u64>, threshold: int) -> Seq<int> {
    seq![key as int] + seq_int(entropy).subrange(0, threshold - 1)
}

/// Rejected share-generation configurations.
#[derive(Clone, Copy, PartialEq, Eq, Structural, Debug)]
pub enum ConfigError {
    /// The threshold was zero or exceeded the number of nodes.
    InvalidThreshold,
}

/// Evaluates the polynomial `coeffs` (constant term first, canonical
/// coefficients) at `x` by Horner's rule.
pub fn eval_poly(coeffs: &Vec<u64>, x: u64) -> (r: u64)
    requires
        all_in_field(coeffs@),
        in_field(x as int),
    ensures
        in_field(r as int),
        r as int == poly_eval(seq_int(coeffs@), x as int),
{
    let ghost cs = seq_int(coeffs@);
    let mut acc: u64 = 0;
    let mut i: usize = coeffs.len();
    while i > 0
        invariant
            i <= coeffs.len(),
            cs == seq_int(coeffs@),
            all_in_field(coeffs@),
            in_field(x as int),
            in_field(acc as int),
            acc as int == poly_eval(cs.subrange(i as int, cs.len() as int), x as int),
        decreases i,
    {
        i = i - 1;
        let next = add_mod(coeffs[i], mul_mod(x, acc));
        proof {
            let tail = cs.subrange(i as int, cs.len() as int);
            assert(tail.len() > 0);
            assert(tail[0] == cs[i as int]);
            assert(tail.subrange(1, tail.len() as int)
                =~= cs.subrange(i as int + 1, cs.len() as int));
        }
        acc = next;
    }
    proof {
        assert(cs.subrange(0, cs.len() as int) =~= cs);
    }
    acc
}

/// Splits a signing key across `total_nodes` nodes so that any
/// `threshold` of them can sign. The caller supplies at least
/// `threshold - 1` words of fresh entropy, which become the blinding
/// coefficients of the sharing polynomial; the unsplit key does not
/// survive the call in any state of this library.
pub fn distribute_key(key: u64, threshold: u8, total_nodes: u8, entropy: &Vec<u64>) -> (res: Result<
    Vec<KeyShare>,
    ConfigError,
>)
    requires
        in_field(key as int),
        all_in_field(entropy@),
        entropy@.len() + 1 >= threshold as int,
    ensures
        res matches Err(e) ==> e == ConfigError::InvalidThreshold && (threshold == 0 || threshold
            > total_nodes),
        res matches Ok(shares) ==> {
            &&& 1 <= threshold as int <= total_nodes as int
            &&& shares@.len() == total_nodes as int
            &&& forall|i: int|
                0 <= i < total_nodes as int ==> {
                    &&& (#[trigger] shares@[i]).wf()
                    &&& shares@[i].node_index as int == i
                    &&& shares@[i].threshold == threshold
                    &&& shares@[i].total_nodes == total_nodes
                    &&& shares@[i].share as int == poly_eval(
                        share_poly(key, entropy@, threshold as int),
                        i + 1,
                    )
                }
        },
        (1 <= threshold as int <= total_nodes as int) <==> res is Ok,
{
    if threshold == 0 || threshold > total_nodes {
        return Err(ConfigError::InvalidThreshold);
    }
    let ghost poly = share_poly(key, entropy@, threshold as int);
    let mut coeffs: Vec<u64> = Vec::new();
    coeffs.push(key);
    let mut k: usize = 0;
    while k < (threshold - 1) as usize
        invariant
            k <= threshold as int - 1,
            threshold as int - 1 <= entropy@.len(),
            all_in_field(entropy@),
            in_field(key as int),
            coeffs@.len() == k + 1,
            coeffs@[0] == key,
            forall|j: int| 1 <= j < coeffs@.len() ==> coeffs@[j] == entropy@[j - 1],
        decreases threshold as int - 1 - k,
    {
        coeffs.push(entropy[k]);
        k = k + 1;
    }
    proof {
        assert(seq_int(coeffs@) =~= poly);
        assert(all_in_field(coeffs@));
    }
    let mut shares: Vec<KeyShare> = Vec::new();
    let mut i: u8 = 0;
    while i < total_nodes
        invariant
            i <= total_nodes,
            1 <= threshold as int <= total_nodes as int,
            seq_int(coeffs@) == poly,
            all_in_field(coeffs@),
            shares@.len() == i as int,
            forall|j: int|
                0 <= j < i as int ==> {
                    &&& (#[trigger] shares@[j]).wf()
                    &&& shares@[j].node_index as int == j
                    &&& shares@[j].threshold == threshold
                    &&& shares@[j].total_nodes == total_nodes
                    &&& shares@[j].share as int == poly_eval(poly, j + 1)
                },
        decreases total_nodes as int - i as int,
    {
        let value = eval_poly(&coeffs, (i as u64) + 1);
        shares.push(KeyShare { share: value, node_index: i, threshold, total_nodes });
        i = i + 1;
    }
    Ok(shares)
}

} // verus!
