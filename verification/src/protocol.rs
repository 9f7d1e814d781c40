//! The confidential request protocol.
//!
//! A registry tracks at most one in-flight computation per request
//! identifier. A request moves `Queued -> Dispatched -> {Completed |
//! Aborted}`; a delivered result is accepted only after its authenticity
//! proof verifies against the cluster's verifying key, the completion
//! outcome is handed out exactly once per request, and redelivery for a
//! request already in a terminal state is a no-op.

use vstd::prelude::*;
use crate::codec::{append_le_bytes, pow256};
use crate::field::in_field;
use crate::signing::{
    signature_valid, verify_signature, CombinedSignature, VerifyingKey,
};

verus! {

/// The lifecycle state of one request.
#[derive(Clone, Copy, PartialEq, Eq, Structural, Debug)]
pub enum RequestStatus {
    /// Accepted, not yet handed to the cluster.
    Queued,
    /// Handed to the cluster, awaiting its result.
    Dispatched,
    /// Finished with an authenticated payload.
    Completed,
    /// Finished without a payload.
    Aborted,
}

/// Why a request aborted.
#[derive(Clone, Copy, PartialEq, Eq, Structural, Debug)]
pub enum AbortReason {
    /// Fewer than the threshold of valid contributions were collected.
    InsufficientQuorum,
    /// The result failed verification against the cluster key.
    VerificationFailed,
    /// The trade instruction was rejected inside the confidential
    /// boundary.
    InvalidInstruction,
}

/// Why a submission was rejected.
#[derive(Clone, Copy, PartialEq, Eq, Structural, Debug)]
pub enum SubmitError {
    /// A request with this identifier is already registered.
    DuplicateId,
    /// The encrypted arguments are not well formed.
    MalformedArgs,
}

/// One-time encryption material bound to a single request.
#[derive(Clone, PartialEq, Eq, Debug)]
pub struct EncryptedArgument {
    /// The encrypted argument bytes.
    pub ciphertext: Vec<u8>,
    /// The one-time nonce of this request.
    pub nonce: u128,
    /// The one-time public key the sender encrypted under.
    pub ephemeral_public_key: u64,
}

impl EncryptedArgument {
    /// Well-formed arguments carry at least one ciphertext byte and a
    /// canonical ephemeral key.
    pub open spec fn wf(self) -> bool {
        self.ciphertext@.len() >= 1 && in_field(self.ephemeral_public_key as int)
    }
}

/// One registered computation request.
pub struct ComputationRequest {
    /// The caller-chosen identifier, unique among in-flight requests.
    pub id: u64,
    /// The encrypted arguments, held until a terminal state is reached.
    pub args: EncryptedArgument,
    /// The declared byte width of the expected payload.
    pub output_len: usize,
    /// Where the request stands in its lifecycle.
    pub status: RequestStatus,
}

/// The status a cluster result reports.
pub enum ComputationStatus {
    /// The computation finished with this payload.
    Completed(Vec<u8>),
    /// The cluster aborted the computation.
    Aborted(AbortReason),
}

/// A result message from the cluster for one request.
pub struct ComputationResult {
    /// The request this result answers.
    pub request_id: u64,
    /// Completion or abort, as the cluster reports it.
    pub status: ComputationStatus,
    /// The cluster's signature over the result message.
    pub authenticity_proof: CombinedSignature,
}

/// What the requester learns when its request reaches a terminal state.
pub enum RequestOutcome {
    /// The authenticated payload.
    Completed(Vec<u8>),
    /// The request aborted for this reason; no payload is released.
    Aborted(AbortReason),
}

/// A terminal status can never change again.
pub open spec fn is_terminal(st: RequestStatus) -> bool {
    st == RequestStatus::Completed || st == RequestStatus::Aborted
}

/// Some entry carries this identifier.
pub open spec fn contains_id(entries: Seq<ComputationRequest>, id: u64) -> bool {
    exists|i: int| 0 <= i < entries.len() && (#[trigger] entries[i]).id == id
}

/// The position of the entry with this identifier.
pub open spec fn id_index(entries: Seq<ComputationRequest>, id: u64) -> int {
    choose|i: int| 0 <= i < entries.len() && (#[trigger] entries[i]).id == id
}

/// No two entries share an identifier.
pub open spec fn ids_distinct(entries: Seq<ComputationRequest>) -> bool {
    forall|i: int, j: int|
        0 <= i < j < entries.len() ==> (#[trigger] entries[i]).id != (#[trigger] entries[j]).id
}

/// The tag byte of an abort reason in the result message.
pub open spec fn reason_tag(reason: AbortReason) -> u8 {
    match reason {
        AbortReason::InsufficientQuorum => 1,
        AbortReason::VerificationFailed => 2,
        AbortReason::InvalidInstruction => 3,
    }
}

/// The canonical byte message the cluster signs for a result: the
/// request identifier, a completion tag, then the payload or the abort
/// reason tag.
pub open spec fn result_message(request_id: u64, status: ComputationStatus) -> Seq<u8> {
    match status {
        ComputationStatus::Completed(payload) => crate::codec::le_bytes_8(request_id).push(1u8)
            + payload@,
        ComputationStatus::Aborted(reason) => crate::codec::le_bytes_8(request_id).push(0u8).push(
            reason_tag(reason),
        ),
    }
}

/// The registry owning every in-flight request.
pub struct RequestRegistry {
    /// The registered requests, identifiers pairwise distinct.
    pub entries: Vec<ComputationRequest>,
    /// The key the cluster's result signatures verify against.
    pub cluster_key: VerifyingKey,
}

impl RequestRegistry {
    /// Identifiers are pairwise distinct and the cluster key is
    /// canonical.
    pub open spec fn wf(self) -> bool {
        ids_distinct(self.entries@) && self.cluster_key.wf()
    }

    /// An empty registry for a cluster verifying key.
    pub fn new(cluster_key: VerifyingKey) -> (reg: RequestRegistry)
        requires
            cluster_key.wf(),
        ensures
            reg.wf(),
            reg.entries@.len() == 0,
            reg.cluster_key == cluster_key,
    {
        RequestRegistry { entries: Vec::new(), cluster_key }
    }

    /// Finds the entry carrying `id`.
    fn find(&self, id: u64) -> (res: Option<usize>)
        requires
            self.wf(),
        ensures
            res matches Some(i) ==> i < self.entries@.len() && self.entries@[i as int].id == id
                && contains_id(self.entries@, id) && id_index(self.entries@, id) == i as int,
            res is None ==> !contains_id(self.entries@, id),
    {
        let n = self.entries.len();
        let mut i: usize = 0;
        while i < n
            invariant
                i <= n,
                n == self.entries@.len(),
                ids_distinct(self.entries@),
                forall|j: int| 0 <= j < i ==> (#[trigger] self.entries@[j]).id != id,
            decreases n - i,
        {
            if self.entries[i].id == id {
                proof {
                    let w = id_index(self.entries@, id);
                    if w != i as int {
                        assert(self.entries@[w].id == id);
                    }
                }
                return Some(i);
            }
            i = i + 1;
        }
        None
    }

    /// Registers a request under a fresh identifier and stores its
    /// encrypted arguments; the request starts `Queued`. A duplicate
    /// identifier or malformed arguments are rejected with nothing
    /// stored, so at most one computation is ever in flight per
    /// identifier.
    pub fn submit(&mut self, id: u64, args: EncryptedArgument, output_len: usize) -> (res: Result<
        (),
        SubmitError,
    >)
        requires
            old(self).wf(),
        ensures
            final(self).wf(),
            final(self).cluster_key == old(self).cluster_key,
            !args.wf() ==> res == Err::<(), SubmitError>(SubmitError::MalformedArgs) && final(self).entries@ == old(self).entries@,
            args.wf() && contains_id(old(self).entries@, id) ==> res == Err::<(), SubmitError>(
                SubmitError::DuplicateId,
            ) && final(self).entries@ == old(self).entries@,
            args.wf() && !contains_id(old(self).entries@, id) ==> res == Ok::<(), SubmitError>(())
                && final(self).entries@ == old(self).entries@.push(
                ComputationRequest { id, args, output_len, status: RequestStatus::Queued },
            ),
    {
        if args.ciphertext.len() == 0 || args.ephemeral_public_key >= crate::field::FIELD_MODULUS {
            return Err(SubmitError::MalformedArgs);
        }
        match self.find(id) {
            Some(_) => Err(SubmitError::DuplicateId),
            None => {
                let ghost before = self.entries@;
                self.entries.push(
                    ComputationRequest { id, args, output_len, status: RequestStatus::Queued },
                );
                proof {
                    assert forall|i: int, j: int|
                        0 <= i < j < self.entries@.len() implies (#[trigger] self.entries@[i]).id
                        != (#[trigger] self.entries@[j]).id by {
                        if j == self.entries@.len() - 1 {
                            assert(before[i].id != id);
                        }
                    }
                }
                Ok(())
            },
        }
    }

    /// Hands a queued request to the cluster: its status moves to
    /// `Dispatched` and the identifier is returned for the outbound
    /// message. Only a queued request can be dispatched.
    pub fn dispatch(&mut self, id: u64) -> (res: Option<u64>)
        requires
            old(self).wf(),
        ensures
            final(self).wf(),
            final(self).cluster_key == old(self).cluster_key,
            res is Some <==> contains_id(old(self).entries@, id) && old(self).entries@[id_index(
                old(self).entries@,
                id,
            )].status == RequestStatus::Queued,
            res matches Some(r) ==> r == id && final(self).entries@ == old(self).entries@.update(
                id_index(old(self).entries@, id),
                ComputationRequest {
                    status: RequestStatus::Dispatched,
                    ..old(self).entries@[id_index(old(self).entries@, id)]
                },
            ),
            res is None ==> final(self).entries@ == old(self).entries@,
    {
        match self.find(id) {
            Some(i) => {
                if !(self.entries[i].status == RequestStatus::Queued) {
                    return None;
                }
                let ghost before = self.entries@;
                self.entries[i].status = RequestStatus::Dispatched;
                proof {
                    lemma_ids_distinct_update(before, i as int, self.entries@[i as int]);
                }
                Some(id)
            },
            None => None,
        }
    }

    /// Accepts a result from the cluster for a dispatched request. The
    /// authenticity proof is verified against the cluster key before
    /// anything is released: on success the request completes and the
    /// payload is handed out, on failure or an explicit cluster abort
    /// the request aborts with no payload. A result for an unknown,
    /// still queued, or already terminal request has no effect, so the
    /// outcome of a request is produced exactly once.
    pub fn deliver(&mut self, result: &ComputationResult) -> (res: Option<RequestOutcome>)
        requires
            old(self).wf(),
        ensures
            final(self).wf(),
            final(self).cluster_key == old(self).cluster_key,
            !contains_id(old(self).entries@, result.request_id) ==> res is None && final(self).entries@ == old(self).entries@,
            contains_id(old(self).entries@, result.request_id) && old(self).entries@[id_index(
                old(self).entries@,
                result.request_id,
            )].status != RequestStatus::Dispatched ==> res is None && final(self).entries@ == old(self).entries@,
            contains_id(old(self).entries@, result.request_id) && old(self).entries@[id_index(
                old(self).entries@,
                result.request_id,
            )].status == RequestStatus::Dispatched ==> ({
                let idx = id_index(old(self).entries@, result.request_id);
                let entry = old(self).entries@[idx];
                let auth = result.authenticity_proof.wf() && signature_valid(
                    result.authenticity_proof,
                    old(self).cluster_key,
                    result_message(result.request_id, result.status),
                );
                &&& (match result.status {
                    ComputationStatus::Completed(payload) => {
                        if auth && payload@.len() == entry.output_len {
                            &&& final(self).entries@ == old(self).entries@.update(
                                idx,
                                ComputationRequest { status: RequestStatus::Completed, ..entry },
                            )
                            &&& (res matches Some(o) && o matches RequestOutcome::Completed(p)
                                && p@ == payload@)
                        } else {
                            &&& final(self).entries@ == old(self).entries@.update(
                                idx,
                                ComputationRequest { status: RequestStatus::Aborted, ..entry },
                            )
                            &&& res == Some(
                                RequestOutcome::Aborted(AbortReason::VerificationFailed),
                            )
                        }
                    },
                    ComputationStatus::Aborted(reason) => {
                        if auth {
                            &&& final(self).entries@ == old(self).entries@.update(
                                idx,
                                ComputationRequest { status: RequestStatus::Aborted, ..entry },
                            )
                            &&& res == Some(RequestOutcome::Aborted(reason))
                        } else {
                            &&& final(self).entries@ == old(self).entries@.update(
                                idx,
                                ComputationRequest { status: RequestStatus::Aborted, ..entry },
                            )
                            &&& res == Some(
                                RequestOutcome::Aborted(AbortReason::VerificationFailed),
                            )
                        }
                    },
                })
            }),
            res is Some ==> is_terminal(
                final(self).entries@[id_index(old(self).entries@, result.request_id)].status,
            ),
    {
        let i = match self.find(result.request_id) {
            Some(i) => i,
            None => {
                return None;
            },
        };
        if !(self.entries[i].status == RequestStatus::Dispatched) {
            return None;
        }
        let msg = build_result_message(result.request_id, &result.status);
        let ok = verify_signature(&result.authenticity_proof, &self.cluster_key, &msg);
        let ghost before = self.entries@;
        if !ok {
            self.entries[i].status = RequestStatus::Aborted;
            proof {
                lemma_ids_distinct_update(before, i as int, self.entries@[i as int]);
            }
            return Some(RequestOutcome::Aborted(AbortReason::VerificationFailed));
        }
        match &result.status {
            ComputationStatus::Completed(payload) => {
                if payload.len() == self.entries[i].output_len {
                    self.entries[i].status = RequestStatus::Completed;
                    proof {
                        lemma_ids_distinct_update(before, i as int, self.entries@[i as int]);
                    }
                    Some(RequestOutcome::Completed(copy_bytes(payload)))
                } else {
                    self.entries[i].status = RequestStatus::Aborted;
                    proof {
                        lemma_ids_distinct_update(before, i as int, self.entries@[i as int]);
                    }
                    Some(RequestOutcome::Aborted(AbortReason::VerificationFailed))
                }
            },
            ComputationStatus::Aborted(reason) => {
                self.entries[i].status = RequestStatus::Aborted;
                proof {
                    lemma_ids_distinct_update(before, i as int, self.entries@[i as int]);
                }
                Some(RequestOutcome::Aborted(*reason))
            },
        }
    }

    /// The encrypted arguments of a registered request: what the
    /// outbound dispatch message to the cluster carries beside the
    /// identifier.
    pub fn args_of(&self, id: u64) -> (res: Option<&EncryptedArgument>)
        requires
            self.wf(),
        ensures
            res is Some <==> contains_id(self.entries@, id),
            res matches Some(a) ==> *a == self.entries@[id_index(self.entries@, id)].args,
    {
        match self.find(id) {
            Some(i) => Some(&self.entries[i].args),
            None => None,
        }
    }

    /// The lifecycle state of a request, if it is registered. No
    /// accessor of the registry returns result payloads: a payload
    /// exists only in the outcome that `deliver` releases.
    pub fn status_of(&self, id: u64) -> (res: Option<RequestStatus>)
        requires
            self.wf(),
        ensures
            res is Some <==> contains_id(self.entries@, id),
            res matches Some(st) ==> st == self.entries@[id_index(self.entries@, id)].status,
    {
        match self.find(id) {
            Some(i) => Some(self.entries[i].status),
            None => None,
        }
    }
}

/// Replacing an entry by one with the same identifier keeps identifiers
/// distinct.
proof fn lemma_ids_distinct_update(s: Seq<ComputationRequest>, i: int, e: ComputationRequest)
    requires
        ids_distinct(s),
        0 <= i < s.len(),
        e.id == s[i].id,
    ensures
        ids_distinct(s.update(i, e)),
{
    let t = s.update(i, e);
    assert forall|p: int, q: int|
        0 <= p < q < t.len() implies (#[trigger] t[p]).id != (#[trigger] t[q]).id by {
        assert(s[p].id != s[q].id);
    }
}

/// Copies a byte string.
pub fn copy_bytes(src: &Vec<u8>) -> (out: Vec<u8>)
    ensures
        out@ == src@,
{
    let n = src.len();
    let mut out: Vec<u8> = Vec::new();
    let mut i: usize = 0;
    while i < n
        invariant
            i <= n,
            n == src@.len(),
            out@ == src@.subrange(0, i as int),
        decreases n - i,
    {
        let ghost prefix = out@;
        out.push(src[i]);
        proof {
            assert(prefix.push(src@[i as int]) =~= src@.subrange(0, i as int + 1));
        }
        i = i + 1;
    }
    proof {
        assert(src@.subrange(0, n as int) =~= src@);
    }
    out
}

/// Builds the canonical result message that the cluster attests.
pub fn build_result_message(request_id: u64, status: &ComputationStatus) -> (m: Vec<u8>)
    ensures
        m@ == result_message(request_id, *status),
{
    proof {
        assert(pow256(0nat) == 1);
        assert(pow256(1nat) == 256);
        assert(pow256(2nat) == 0x10000);
        assert(pow256(3nat) == 0x1000000);
        assert(pow256(4nat) == 0x100000000);
        assert(pow256(5nat) == 0x10000000000);
        assert(pow256(6nat) == 0x1000000000000);
        assert(pow256(7nat) == 0x100000000000000);
        assert(pow256(8nat) == 0x10000000000000000);
    }
    let mut m: Vec<u8> = Vec::new();
    append_le_bytes(&mut m, request_id, 8);
    proof {
        assert(m@.subrange(0, m@.len() as int) =~= m@);
    }
    match status {
        ComputationStatus::Completed(payload) => {
            m.push(1u8);
            let ghost head = m@;
            let n = payload.len();
            let mut i: usize = 0;
            while i < n
                invariant
                    i <= n,
                    n == payload@.len(),
                    m@ == head + payload@.subrange(0, i as int),
                decreases n - i,
            {
                let ghost prefix = m@;
                m.push(payload[i]);
                proof {
                    assert(head + payload@.subrange(0, i as int + 1) =~= prefix.push(
                        payload@[i as int],
                    ));
                }
                i = i + 1;
            }
            proof {
                assert(head + payload@.subrange(0, n as int) =~= head + payload@);
            }
        },
        ComputationStatus::Aborted(reason) => {
            m.push(0u8);
            let tag: u8 = match reason {
                AbortReason::InsufficientQuorum => 1,
                AbortReason::VerificationFailed => 2,
                AbortReason::InvalidInstruction => 3,
            };
            m.push(tag);
        },
    }
    m
}

} // verus!
