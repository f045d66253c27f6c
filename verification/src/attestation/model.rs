use vstd::prelude::*;

use crate::types::{AccountId, Balance, BlsPublicKey, ChainKey, Digest, EraIndex};

verus! {

/// Lifecycle of a registered attestor.
#[derive(Clone, Copy, Debug, PartialEq, Eq, Structural)]
pub enum AttestorStatus {
    /// Registered, not attesting.
    Idle,
    /// Signalled readiness; becomes active at the next election.
    Waiting,
    /// Member of the elected set.
    Active,
    /// Asked to stop; becomes idle at the next election.
    Leaving,
}

/// A registered attestor (controller) account.
#[derive(Clone, Copy, Debug, PartialEq, Eq, Structural)]
pub struct Attestor {
    pub bls_public_key: Option<BlsPublicKey>,
    pub status: AttestorStatus,
    pub stash: AccountId,
}

/// The election policy used when electing new attestors after each epoch.
#[derive(Clone, Copy, Debug, PartialEq, Eq, Structural)]
pub enum AttestorElectionPolicy {
    /// Any attestor can be selected.
    OpenToAny,
    /// Only authorized attestors can be selected.
    AuthorizedOnly,
    /// No new attestors can be selected.
    DeniedToAll,
}

/// A condensed point of the attestation chain.
#[derive(Clone, Copy, Debug, PartialEq, Eq, Structural)]
pub struct AttestationCheckpoint {
    pub block_number: u64,
    pub digest: Digest,
}

/// A BLS key kept after its attestor unregistered, until the unbonding ends.
#[derive(Clone, Copy, Debug, PartialEq, Eq, Structural)]
pub struct RetiredAttestorBlsKeyEntry {
    pub bls_public_key: BlsPublicKey,
    pub purge_at_era: EraIndex,
    pub stash: AccountId,
}

/// Progress of the removal of the checkpoints above a revert height.
#[derive(Clone, Copy, Debug, PartialEq, Eq, Structural)]
pub struct CheckpointPruningState {
    /// Height of the last checkpoint before the reversion was initiated.
    pub stop_height: u64,
    /// Inclusive lower bound for scanning bucket pivots.
    pub next_pivot: u64,
}

/// The continuity proof of an attestation: the blocks between the previously
/// finalized state and the attested block, oldest first, each given by its digest.
/// The block digests are chained hashes of the blocks' roots; this library does not
/// compute them from the roots but takes them as given.
pub struct ContinuityProof {
    /// The digest that the oldest block of the proof links back to.
    pub lower_endpoint_digest: Digest,
    /// The digests of the proof's blocks, oldest first.
    pub digests: Vec<Digest>,
}

impl ContinuityProof {
    pub open spec fn spec_len(&self) -> nat {
        self.digests@.len()
    }

    /// The block number of the oldest block of the proof of an attestation of
    /// `header_number`: the proof ends right below the attested block.
    pub open spec fn spec_start_block_number(&self, header_number: u64) -> int {
        if header_number >= self.spec_len() {
            header_number - self.spec_len()
        } else {
            0
        }
    }

    /// The digest that the chain of the proof reaches: that of its newest block.
    pub open spec fn spec_continuity_digest(&self) -> Digest {
        if self.digests@.len() == 0 {
            self.lower_endpoint_digest
        } else {
            self.digests@.last()
        }
    }

    /// The digest of block `target` of the proof, the oldest block being `start`.
    pub open spec fn spec_digest_for_block(&self, start: int, target: int) -> Option<Digest> {
        if start <= target < start + self.spec_len() {
            Some(self.digests@[target - start])
        } else {
            None
        }
    }

    pub fn len(&self) -> (n: usize)
        ensures
            n == self.spec_len(),
    {
        self.digests.len()
    }

    pub fn is_empty(&self) -> (b: bool)
        ensures
            b == (self.spec_len() == 0),
    {
        self.digests.len() == 0
    }

    pub fn start_block_number(&self, header_number: u64) -> (n: u64)
        ensures
            n == self.spec_start_block_number(header_number),
    {
        let len = self.digests.len() as u64;
        if header_number >= len {
            header_number - len
        } else {
            0
        }
    }

    /// The digest the oldest block links back to; none for an empty proof.
    pub fn tail_prev_digest(&self) -> (r: Option<Digest>)
        ensures
            r == (if self.spec_len() == 0 {
                None
            } else {
                Some(self.lower_endpoint_digest)
            }),
    {
        if self.digests.len() == 0 {
            None
        } else {
            Some(self.lower_endpoint_digest)
        }
    }

    pub fn compute_continuity_digest(&self) -> (d: Digest)
        ensures
            d == self.spec_continuity_digest(),
    {
        let n = self.digests.len();
        if n == 0 {
            self.lower_endpoint_digest
        } else {
            self.digests[n - 1]
        }
    }

    pub fn digest_for_block(&self, start: u64, target: u64) -> (r: Option<Digest>)
        ensures
            r == self.spec_digest_for_block(start as int, target as int),
    {
        let n = self.digests.len();
        if start <= target && target - start < n as u64 {
            Some(self.digests[(target - start) as usize])
        } else {
            None
        }
    }
}

/// An attestation of a source-chain block, signed by a set of attestors.
pub struct SignedAttestation {
    pub chain_key: ChainKey,
    pub header_number: u64,
    /// The digest of the attestation, computed from its data.
    pub digest: Digest,
    /// The digest of the attestation this one follows, if any.
    pub prev_digest: Option<Digest>,
    /// The serialized attestation data: the message that the attestors signed.
    pub message: Vec<u8>,
    /// The aggregated BLS signature over `message`.
    pub signature: Vec<u8>,
    /// The attestors that took part in the aggregated signature.
    pub attestors: Vec<AccountId>,
    pub continuity_proof: ContinuityProof,
}

/// Events of the attestation pallet.
#[derive(Clone, Debug, PartialEq, Eq)]
pub enum Event {
    AttestorRegistered(ChainKey, AccountId),
    AttestorUnregistered(ChainKey, AccountId),
    InvulnerableRegistered(ChainKey, AccountId),
    InvulnerableUnregistered(ChainKey, AccountId),
    BlockAttested(ChainKey, u64, Digest),
    CheckpointReached(ChainKey, AttestationCheckpoint),
    PendingTargetSampleSizeSet(ChainKey, u32),
    TargetSampleSizeChanged(ChainKey, u32),
    Bonded { stash: AccountId, amount: Balance },
    Unbonded { stash: AccountId, amount: Balance },
    Withdrawn { stash: AccountId, amount: Balance },
    AttestorActivated(ChainKey, AccountId, BlsPublicKey),
    AttestorChilled(ChainKey, AccountId),
    /// The attestors a chain elected, in election order.
    AttestorsElected { epoch: u64, chain_key: ChainKey, attestors: Vec<AccountId> },
    MinBondRequirementUpdated(ChainKey, Balance),
    AttestationIntervalChanged(ChainKey, u64),
    PendingAttestationIntervalSet(ChainKey, u64),
    CheckpointsCleared(ChainKey),
    CheckpointIntervalChanged(ChainKey, u32),
    MaxCatchupChanged(ChainKey, u32),
    PendingMaxCatchupSet(ChainKey, u32),
    ClearedStorageForRemovedChain(ChainKey),
    MaxAttestorsChanged(ChainKey, u32),
    AttestationChainGenesisBlockNumberSet(ChainKey, u64),
    ChangedElectionPolicy(ChainKey, AttestorElectionPolicy),
    AuthorizedAttestorAdded(ChainKey, AccountId),
    AuthorizedAttestorRemoved(ChainKey, AccountId),
    ForcedElection { epoch: u64 },
    ForcedUpdatesApplied,
    ForwardCheckpointPatchApplied { chain_key: ChainKey, wiped_suffix: bool, tip_block_number: u64 },
}

/// Why a call of the attestation pallet was refused.
#[derive(Clone, Copy, Debug, PartialEq, Eq, Structural)]
pub enum Error {
    AlreadyAttestor,
    AttestorListFull,
    AddressNotAttestor,
    InvulnerableListFull,
    MaxInvulnerablesCannotBeChanged,
    AddressIsNotInvulnerable,
    InvalidAttestation,
    NoPreviousDigest,
    AttestationExists,
    ChainNotSupported,
    InvalidBlsPublicKey,
    InvalidBlsSignature,
    InvalidProofOfPossession,
    CheckpointCreationError,
    LastCheckpointEmpty,
    CheckpointWidthIsZero,
    CheckpointingQueueDrained,
    AttestationNotFound,
    CheckpointTargetNotFound,
    InvalidAttestorAccount,
    InsufficientBalance,
    NotStash,
    NoMoreChunks,
    NotYourAttestor,
    AlreadyBonded,
    AttestorNotIdle,
    NoSupportedChains,
    InvalidAttestationInterval,
    InvalidAttestationsPerCheckpoint,
    InvalidMaxCatchup,
    InvalidTargetSampleSize,
    AttestationFoundWhileImporting,
    InvalidAttestationBlockNumber,
    InvalidAttestorFound,
    AttestorNotActive,
    AttestorWithInvalidPublicKey,
    MajorityNotReached,
    DuplicateAttestor,
    AttestorAlreadyAuthorized,
    AttestorNotAuthorized,
    NoFinalizedAttestation,
    AttestationsAlreadyExist,
    EmptyContinuityProof,
    InvalidAttestationContinuityProof,
    InvalidAttestationContinuityProofTail,
    InvalidAttestationContinuityProofHead,
    InvalidAttestationContinuityProofBlock,
    InvalidAttestationContinuityProofBlockGenesis,
    InvalidAttestationPrevDigest,
    NotPreAuthorizedToRegister,
    BondAssetTransferFailed,
    RetiredAttestorPendingFull,
    BlsKeyAlreadyRegistered,
    InsufficientUniqueSigners,
    LastCheckpointNotSet,
    TooManyAttestations,
    NoSuchCheckpoint,
    TooManyAttestationsForForwardPatchClear,
    CheckpointMaintenanceInProgress,
    EmptyCheckpointPatch,
    CheckpointSuffixWipeTooLarge,
    Overflow,
    /// The call's origin may not make it.
    BadOrigin,
}

/// An effect on balances that the runtime performs for a call of the pallet, in
/// order; if one fails the whole call is undone.
#[derive(Clone, Copy, Debug, PartialEq, Eq, Structural)]
pub enum RuntimeAction {
    /// Transfer of the native currency, keeping the sender alive.
    NativeTransfer { from: AccountId, to: AccountId, amount: Balance },
    /// Transfer of the bond asset; the sender may be emptied.
    BondTransfer { from: AccountId, to: AccountId, amount: Balance },
    /// The stash gains a consumer reference (its account must have a provider).
    IncConsumers(AccountId),
    /// The stash loses a consumer reference.
    DecConsumers(AccountId),
}

} // verus!
