//! Bookkeeping of submitted STARK proofs of source-chain claims.

use vstd::prelude::*;

use crate::attestation::store::ChainStore;
use crate::keymap::KeyMap;
use crate::types::{AccountId, ChainKey, Digest};

verus! {

/// The kind of item a claim is about.
#[derive(Clone, Copy, Debug, PartialEq, Eq, Structural)]
pub enum ClaimKind {
    /// A transaction.
    Tx,
    /// A receipt.
    Rx,
}

impl ClaimKind {
    /// The code of the kind: 1 for a transaction, 2 for a receipt.
    pub fn code(&self) -> (c: u8)
        ensures
            c == match *self {
                ClaimKind::Tx => 1u8,
                ClaimKind::Rx => 2u8,
            },
    {
        match self {
            ClaimKind::Tx => 1,
            ClaimKind::Rx => 2,
        }
    }
}

/// An item of a block: its block number and its index in the block.
#[derive(Clone, Copy, Debug, PartialEq, Eq, Structural)]
pub struct BlockItemIdentifier {
    pub block_number: u64,
    pub index: u32,
}

/// What a claim is about.
#[derive(Clone, Copy, Debug, PartialEq, Eq, Structural)]
pub struct ClaimId {
    pub kind: ClaimKind,
    pub block_item_id: BlockItemIdentifier,
}

/// A range of field elements of a claimed item.
#[derive(Clone, Copy, Debug, PartialEq, Eq, Structural)]
pub struct FeltRange {
    pub start: u32,
    pub end: u32,
}

/// How the verification of a query ended.
#[derive(Clone, Copy, Debug, PartialEq, Eq, Structural)]
pub enum VerifierExitStatus {
    Success,
    MissingContinuityProof,
    QueryBlockNumberMismatch,
    ProcessingError,
    QueryValidationError,
    QueryOutOfBounds,
    LayoutMismatch,
    ProofInvalid,
}

/// Why a call of the prover pallet was refused.
#[derive(Clone, Copy, Debug, PartialEq, Eq, Structural)]
pub enum ProverError {
    InvalidProofSubmitted,
    StarkProgramMetadataNotSet,
    StarkProgramMetadataAlreadySet,
    StarkProgramMetadataNotFound,
    FileError,
    ProofParseError,
    StarkProgramAuthenticationError,
    VerifierExecutionError,
    VerifierProcessError,
    QueryIdNotValidated,
    QueryOutOfBounds,
    QueryOffsetMismatch,
    QueryCheckpointMismatch,
    QueryBlockNumberMismatch,
    ResultSegmentsExceedMaxSize,
    MissingContinuityProof,
    /// The call's origin may not make it.
    BadOrigin,
}

/// Events of the prover pallet.
#[derive(Clone, Copy, Debug, PartialEq, Eq, Structural)]
pub enum ProverEvent {
    QueryVerified(Digest, AccountId, VerifierExitStatus),
    QueryVerificationFailed(Digest, AccountId, VerifierExitStatus),
    StarkProgramMetadataSet(u8, Digest),
    StarkProgramMetadataRemoved(u8),
}

/// What the proof verifier reports on a proof of a query.
pub struct VerifierOutput {
    /// Zero when the proof holds; otherwise the kind of failure.
    pub status: u32,
    /// The result of the query, segment by segment.
    pub segments: Vec<Vec<u8>>,
    /// The number of blocks of the proof's continuity chain, both ends included.
    pub continuity_proof_len: Option<u64>,
    /// The digest of the checkpoint or attestation the continuity chain ends at.
    pub continuity_checkpoint_digest: Option<Digest>,
}

/// The error that a non-zero verifier status gives.
pub open spec fn status_error(status: u32) -> ProverError {
    if 1 <= status <= 5 {
        ProverError::FileError
    } else if status == 6 || status == 7 {
        ProverError::ProofParseError
    } else if status == 8 {
        ProverError::StarkProgramAuthenticationError
    } else if status == 9 {
        ProverError::VerifierExecutionError
    } else if status == 10 {
        ProverError::VerifierProcessError
    } else if status == 11 {
        ProverError::QueryIdNotValidated
    } else if status == 12 {
        ProverError::QueryOutOfBounds
    } else if status == 13 {
        ProverError::QueryOffsetMismatch
    } else {
        ProverError::InvalidProofSubmitted
    }
}

/// The block of the first checkpoint of `chain_key`, in storage order, whose digest
/// is `d`.
pub open spec fn first_checkpoint_with_digest(
    order: Seq<(ChainKey, u64)>,
    m: Map<(ChainKey, u64), Digest>,
    d: Digest,
) -> Option<u64>
    decreases order.len(),
{
    if order.len() == 0 {
        None
    } else {
        match first_checkpoint_with_digest(order.drop_last(), m, d) {
            Some(b) => Some(b),
            None => if m.contains_key(order.last()) && m[order.last()] == d {
                Some(order.last().1)
            } else {
                None
            },
        }
    }
}

impl ChainStore {
    /// The block of the first checkpoint of `chain_key` whose digest is `d`.
    pub fn checkpoint_block_of_digest(&self, chain_key: ChainKey, d: Digest) -> (r: Option<u64>)
        requires
            self.wf(),
        ensures
            r == first_checkpoint_with_digest(
                self.checkpoints.chain_order(chain_key),
                self.checkpoints@,
                d,
            ),
    {
        let ks = self.checkpoints.keys_of_chain(chain_key);
        let mut i: usize = 0;
        while i < ks.len()
            invariant
                self.wf(),
                i <= ks@.len(),
                ks@ == self.checkpoints.chain_order(chain_key),
                first_checkpoint_with_digest(ks@.take(i as int), self.checkpoints@, d) is None,
            decreases ks@.len() - i,
        {
            let k = ks[i];
            proof {
                assert(ks@.take(i + 1).drop_last() =~= ks@.take(i as int));
            }
            match self.checkpoints.get(&k) {
                Some(x) => {
                    if *x == d {
                        proof {
                            lemma_first_digest_prefix(ks@, self.checkpoints@, d, i + 1);
                        }
                        return Some(k.1);
                    }
                },
                None => {},
            }
            i = i + 1;
        }
        proof {
            assert(ks@.take(ks@.len() as int) =~= ks@);
        }
        None
    }

    /// The header number of the stored attestation of `chain_key` with digest `d`.
    pub fn attestation_header_of(&self, chain_key: ChainKey, d: Digest) -> (r: Option<u64>)
        requires
            self.wf(),
        ensures
            r == (if self.attestations@.contains_key((chain_key, d)) {
                Some(self.attestations@[(chain_key, d)].header_number)
            } else {
                None
            }),
    {
        match self.attestations.get(&(chain_key, d)) {
            Some(a) => Some(a.header_number),
            None => None,
        }
    }

    /// The block number of the last checkpoint of `chain_key`.
    pub fn last_checkpoint_number(&self, chain_key: ChainKey) -> (r: Option<u64>)
        requires
            self.wf(),
        ensures
            r == (if self.last_checkpoint@.contains_key(chain_key) {
                Some(self.last_checkpoint@[chain_key].block_number)
            } else {
                None
            }),
    {
        match self.last_checkpoint.get(&chain_key) {
            Some(c) => Some(c.block_number),
            None => None,
        }
    }
}

/// Once a prefix of the order finds the digest, the whole order finds it there.
proof fn lemma_first_digest_prefix(order: Seq<(ChainKey, u64)>, m: Map<(ChainKey, u64), Digest>, d: Digest, k: int)
    requires
        0 <= k <= order.len(),
        first_checkpoint_with_digest(order.take(k), m, d) is Some,
    ensures
        first_checkpoint_with_digest(order, m, d) == first_checkpoint_with_digest(order.take(k), m, d),
    decreases order.len() - k,
{
    if k < order.len() {
        assert(order.take(k + 1).drop_last() =~= order.take(k));
        lemma_first_digest_prefix(order, m, d, k + 1);
    } else {
        assert(order.take(k) =~= order);
    }
}

/// The block that the continuity chain of a proof must end at: it starts right below
/// the queried block and counts `len` blocks, both ends included.
pub open spec fn proven_block(query_height: u64, len: u64) -> int {
    query_height - 1 + len - 1
}

/// The block the continuity chain of a proof of a query of `query_height` actually
/// ends at: the checkpoint with `digest` when the last checkpoint covers the query,
/// else the attestation with `digest`.
pub open spec fn expected_block(store: ChainStore, chain_key: ChainKey, query_height: u64, digest: Digest) -> Option<u64> {
    if store.last_checkpoint@.contains_key(chain_key) && store.last_checkpoint@[chain_key].block_number
        >= query_height {
        first_checkpoint_with_digest(store.checkpoints.chain_order(chain_key), store.checkpoints@, digest)
    } else if store.attestations@.contains_key((chain_key, digest)) {
        Some(store.attestations@[(chain_key, digest)].header_number)
    } else {
        None
    }
}

/// The prover pallet's state.
pub struct ProverPallet {
    pub results: KeyMap<Digest, VerifierExitStatus>,
    pub segments: KeyMap<Digest, Vec<Vec<u8>>>,
    /// The authentication hash of each STARK program version.
    pub metadata: KeyMap<u8, Digest>,
    /// Most result segments stored per query.
    pub max_segments: u32,
}

impl ProverPallet {
    pub open spec fn wf(&self) -> bool {
        &&& self.results.wf()
        &&& self.segments.wf()
        &&& self.metadata.wf()
    }

    /// A pallet with no result and no program metadata.
    pub fn new(max_segments: u32) -> (p: Self)
        ensures
            p.wf(),
            p.results@ == Map::<Digest, VerifierExitStatus>::empty(),
            p.segments@ == Map::<Digest, Vec<Vec<u8>>>::empty(),
            p.metadata@ == Map::<u8, Digest>::empty(),
            p.max_segments == max_segments,
    {
        ProverPallet { results: KeyMap::new(), segments: KeyMap::new(), metadata: KeyMap::new(), max_segments }
    }

    /// The authentication hash of STARK program `program_version` (zero when unset).
    pub fn stark_program_metadata(&self, program_version: u8) -> (h: Digest)
        requires
            self.wf(),
        ensures
            self.metadata@.contains_key(program_version) ==> h == self.metadata@[program_version],
            !self.metadata@.contains_key(program_version) ==> h.spec_is_zero(),
    {
        match self.metadata.get(&program_version) {
            Some(h) => *h,
            None => Digest::zero(),
        }
    }

    /// Why a submission of `proof` is refused before the verifier runs, if it is.
    pub open spec fn precheck_verdict(&self, proof: Seq<u8>) -> Result<(), ProverError> {
        if proof.len() == 0 {
            Err(ProverError::InvalidProofSubmitted)
        } else if self.metadata@.dom().len() == 0 {
            Err(ProverError::StarkProgramMetadataNotSet)
        } else {
            Ok(())
        }
    }

    /// Why the submission of a proof of the query `query_id` (of block `query_height`
    /// of `chain_key`), which the verifier reported as `output`, is refused, if it is.
    pub open spec fn submit_verdict(
        &self,
        store: ChainStore,
        proof: Seq<u8>,
        chain_key: ChainKey,
        query_height: u64,
        output: VerifierOutput,
    ) -> Result<(), ProverError> {
        match self.precheck_verdict(proof) {
            Err(e) => Err(e),
            Ok(()) => if output.status != 0 {
                Err(status_error(output.status))
            } else if output.continuity_proof_len is None || output.continuity_checkpoint_digest is None {
                Err(ProverError::MissingContinuityProof)
            } else {
                match expected_block(store, chain_key, query_height, output.continuity_checkpoint_digest->0) {
                    None => Err(ProverError::QueryCheckpointMismatch),
                    Some(b) => if proven_block(query_height, output.continuity_proof_len->0) != b {
                        Err(ProverError::QueryBlockNumberMismatch)
                    } else if output.segments@.len() > self.max_segments {
                        Err(ProverError::ResultSegmentsExceedMaxSize)
                    } else {
                        Ok(())
                    },
                }
            },
        }
    }

    /// Refuses a submission that cannot be verified: an empty proof, or no STARK
    /// program registered.
    pub fn precheck(&self, proof: &Vec<u8>) -> (r: Result<(), ProverError>)
        requires
            self.wf(),
        ensures
            r == self.precheck_verdict(proof@),
    {
        if proof.len() == 0 {
            return Err(ProverError::InvalidProofSubmitted);
        }
        proof {
            self.metadata.lemma_len_is_dom_len();
        }
        if self.metadata.len() == 0 {
            return Err(ProverError::StarkProgramMetadataNotSet);
        }
        Ok(())
    }

    /// Records the verification of a proof by `prover` of the query `query_id` (of
    /// block `query_height` of `chain_key`), given the verifier's report `output`: a
    /// successful proof whose continuity chain ends at the expected checkpoint or
    /// attestation has its result segments and its success stored. On error nothing
    /// changes.
    pub fn submit_proof(
        &mut self,
        store: &ChainStore,
        prover: AccountId,
        proof: &Vec<u8>,
        chain_key: ChainKey,
        query_height: u64,
        query_id: Digest,
        output: VerifierOutput,
        events: &mut Vec<ProverEvent>,
    ) -> (r: Result<(), ProverError>)
        requires
            old(self).wf(),
            store.wf(),
        ensures
            final(self).wf(),
            r == old(self).submit_verdict(*store, proof@, chain_key, query_height, output),
            r is Err ==> *final(self) == *old(self) && final(events)@ == old(events)@,
            r is Ok ==> {
                &&& final(self).results@ == old(self).results@.insert(query_id, VerifierExitStatus::Success)
                &&& final(self).segments@.dom() == old(self).segments@.dom().insert(query_id)
                &&& final(self).segments@[query_id]@ == output.segments@
                &&& forall|q: Digest| q != query_id && #[trigger] old(self).segments@.contains_key(q)
                    ==> final(self).segments@[q] == old(self).segments@[q]
                &&& final(self).metadata == old(self).metadata
                &&& final(self).max_segments == old(self).max_segments
                &&& final(events)@ == old(events)@.push(
                    ProverEvent::QueryVerified(query_id, prover, VerifierExitStatus::Success),
                )
            },
    {
        match self.precheck(proof) {
            Err(e) => {
                return Err(e);
            },
            Ok(()) => {},
        }
        let status = output.status;
        if status != 0 {
            return Err(
                if 1 <= status && status <= 5 {
                    ProverError::FileError
                } else if status == 6 || status == 7 {
                    ProverError::ProofParseError
                } else if status == 8 {
                    ProverError::StarkProgramAuthenticationError
                } else if status == 9 {
                    ProverError::VerifierExecutionError
                } else if status == 10 {
                    ProverError::VerifierProcessError
                } else if status == 11 {
                    ProverError::QueryIdNotValidated
                } else if status == 12 {
                    ProverError::QueryOutOfBounds
                } else if status == 13 {
                    ProverError::QueryOffsetMismatch
                } else {
                    ProverError::InvalidProofSubmitted
                },
            );
        }
        let len = match output.continuity_proof_len {
            Some(l) => l,
            None => {
                return Err(ProverError::MissingContinuityProof);
            },
        };
        let digest = match output.continuity_checkpoint_digest {
            Some(d) => d,
            None => {
                return Err(ProverError::MissingContinuityProof);
            },
        };
        let expected = match store.last_checkpoint_number(chain_key) {
            Some(last) => if last >= query_height {
                store.checkpoint_block_of_digest(chain_key, digest)
            } else {
                store.attestation_header_of(chain_key, digest)
            },
            None => store.attestation_header_of(chain_key, digest),
        };
        let expected = match expected {
            Some(b) => b,
            None => {
                return Err(ProverError::QueryCheckpointMismatch);
            },
        };
        if (query_height as i128) - 1 + (len as i128) - 1 != (expected as i128) {
            return Err(ProverError::QueryBlockNumberMismatch);
        }
        if output.segments.len() as u64 > self.max_segments as u64 {
            return Err(ProverError::ResultSegmentsExceedMaxSize);
        }
        self.segments.insert(query_id, output.segments);
        events.push(ProverEvent::QueryVerified(query_id, prover, VerifierExitStatus::Success));
        self.results.insert(query_id, VerifierExitStatus::Success);
        Ok(())
    }

    /// Root registers the authentication hash of a STARK program version; refused when
    /// the version already has one.
    pub fn set_stark_program_metadata(
        &mut self,
        root: bool,
        program_version: u8,
        program_auth_hash: Digest,
        events: &mut Vec<ProverEvent>,
    ) -> (r: Result<(), ProverError>)
        requires
            old(self).wf(),
        ensures
            final(self).wf(),
            !root ==> r == Err::<(), ProverError>(ProverError::BadOrigin) && *final(self) == *old(self)
                && final(events)@ == old(events)@,
            root && old(self).metadata@.contains_key(program_version) ==> r == Err::<(), ProverError>(
                ProverError::StarkProgramMetadataAlreadySet,
            ) && *final(self) == *old(self) && final(events)@ == old(events)@,
            root && !old(self).metadata@.contains_key(program_version) ==> r is Ok && final(self).metadata@
                == old(self).metadata@.insert(program_version, program_auth_hash) && final(events)@
                == old(events)@.push(ProverEvent::StarkProgramMetadataSet(program_version, program_auth_hash)),
            final(self).results == old(self).results,
            final(self).segments == old(self).segments,
            final(self).max_segments == old(self).max_segments,
    {
        if !root {
            return Err(ProverError::BadOrigin);
        }
        if self.metadata.contains_key(&program_version) {
            return Err(ProverError::StarkProgramMetadataAlreadySet);
        }
        self.metadata.insert(program_version, program_auth_hash);
        events.push(ProverEvent::StarkProgramMetadataSet(program_version, program_auth_hash));
        Ok(())
    }

    /// Root drops the authentication hash of a STARK program version; refused when
    /// the version has none.
    pub fn remove_stark_program_metadata(&mut self, root: bool, program_version: u8, events: &mut Vec<ProverEvent>) -> (r:
        Result<(), ProverError>)
        requires
            old(self).wf(),
        ensures
            final(self).wf(),
            !root ==> r == Err::<(), ProverError>(ProverError::BadOrigin) && *final(self) == *old(self)
                && final(events)@ == old(events)@,
            root && !old(self).metadata@.contains_key(program_version) ==> r == Err::<(), ProverError>(
                ProverError::StarkProgramMetadataNotFound,
            ) && *final(self) == *old(self) && final(events)@ == old(events)@,
            root && old(self).metadata@.contains_key(program_version) ==> r is Ok && final(self).metadata@
                == old(self).metadata@.remove(program_version) && final(events)@ == old(events)@.push(
                ProverEvent::StarkProgramMetadataRemoved(program_version),
            ),
            final(self).results == old(self).results,
            final(self).segments == old(self).segments,
            final(self).max_segments == old(self).max_segments,
    {
        if !root {
            return Err(ProverError::BadOrigin);
        }
        if !self.metadata.contains_key(&program_version) {
            return Err(ProverError::StarkProgramMetadataNotFound);
        }
        let _ = self.metadata.remove(&program_version);
        events.push(ProverEvent::StarkProgramMetadataRemoved(program_version));
        Ok(())
    }
}

} // verus!
