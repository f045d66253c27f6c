//! The storage migration of stored attestations from continuity proofs that list
//! whole blocks to proofs that keep the lower endpoint digest and the blocks' roots.

use vstd::prelude::*;

use crate::attestation::pallet::copy_accounts;
use crate::supported_chains::copy_bytes;
use crate::types::{AccountId, ChainKey, Digest};

verus! {

/// The storage version that holds continuity proofs as roots.
pub const CONTINUITY_PROOF_STORAGE_VERSION: u16 = 1;

/// A block of a continuity proof as the first storage version kept it.
#[derive(Clone, Copy, Debug, PartialEq, Eq, Structural)]
pub struct OldBlock {
    pub block_number: u64,
    pub root: Digest,
    pub prev_digest: Digest,
    pub digest: Digest,
}

/// The attested data of a stored attestation.
#[derive(Clone, Copy, Debug, PartialEq, Eq, Structural)]
pub struct AttestationRecord {
    pub chain_key: ChainKey,
    pub header_number: u64,
    pub header_hash: Digest,
    pub root: Digest,
    pub prev_digest: Option<Digest>,
}

/// A stored attestation of the first storage version.
pub struct OldSignedAttestation {
    pub attestation: AttestationRecord,
    pub signature: Vec<u8>,
    pub attestors: Vec<AccountId>,
    /// The proof's blocks, oldest first.
    pub continuity_proof: Vec<OldBlock>,
}

/// A continuity proof as the current storage version keeps it.
pub struct StoredContinuityProof {
    /// The digest that the oldest block of the proof links back to.
    pub lower_endpoint_digest: Digest,
    /// The roots of the proof's blocks, oldest first.
    pub roots: Vec<Digest>,
}

/// A stored attestation of the current storage version.
pub struct StoredSignedAttestation {
    pub attestation: AttestationRecord,
    pub signature: Vec<u8>,
    pub attestors: Vec<AccountId>,
    pub continuity_proof: StoredContinuityProof,
}

/// The roots of `blocks`, in order.
pub open spec fn roots_of(blocks: Seq<OldBlock>) -> Seq<Digest> {
    Seq::new(blocks.len(), |i: int| blocks[i].root)
}

/// The lower endpoint of the proof made of `blocks`: the digest the oldest block links
/// back to, or the zero digest for no blocks.
pub open spec fn lower_endpoint_of(blocks: Seq<OldBlock>) -> Digest {
    if blocks.len() == 0 {
        Digest { w0: 0, w1: 0, w2: 0, w3: 0 }
    } else {
        blocks[0].prev_digest
    }
}

impl StoredContinuityProof {
    pub fn len(&self) -> (n: usize)
        ensures
            n == self.roots@.len(),
    {
        self.roots.len()
    }

    pub fn is_empty(&self) -> (b: bool)
        ensures
            b == (self.roots@.len() == 0),
    {
        self.roots.len() == 0
    }

    /// The digest the proof's oldest block links back to, if it has blocks.
    pub fn tail_prev_digest(&self) -> (r: Option<Digest>)
        ensures
            r == (if self.roots@.len() == 0 {
                None::<Digest>
            } else {
                Some(self.lower_endpoint_digest)
            }),
    {
        if self.roots.len() == 0 {
            None
        } else {
            Some(self.lower_endpoint_digest)
        }
    }
}

/// `new` is `old` in the current storage format.
pub open spec fn converted(old: OldSignedAttestation, new: StoredSignedAttestation) -> bool {
    &&& new.attestation == old.attestation
    &&& new.signature@ == old.signature@
    &&& new.attestors@ == old.attestors@
    &&& new.continuity_proof.lower_endpoint_digest == lower_endpoint_of(old.continuity_proof@)
    &&& new.continuity_proof.roots@ == roots_of(old.continuity_proof@)
}

/// Converts a stored attestation to the current storage format: its data, signature
/// and attestors stay; its proof keeps the lower endpoint and the blocks' roots.
pub fn convert_old_to_new(old: &OldSignedAttestation) -> (new: StoredSignedAttestation)
    ensures
        converted(*old, new),
{
    let blocks = &old.continuity_proof;
    let mut roots: Vec<Digest> = Vec::new();
    let mut i: usize = 0;
    while i < blocks.len()
        invariant
            i <= blocks@.len(),
            roots@ == roots_of(blocks@.take(i as int)),
        decreases blocks@.len() - i,
    {
        roots.push(blocks[i].root);
        i = i + 1;
        proof {
            assert(roots@ =~= roots_of(blocks@.take(i as int)));
        }
    }
    proof {
        assert(blocks@.take(blocks@.len() as int) =~= blocks@);
    }
    let lower_endpoint_digest = if blocks.len() == 0 {
        Digest::zero()
    } else {
        blocks[0].prev_digest
    };
    StoredSignedAttestation {
        attestation: old.attestation,
        signature: copy_bytes(&old.signature),
        attestors: copy_accounts(&old.attestors),
        continuity_proof: StoredContinuityProof { lower_endpoint_digest, roots },
    }
}

/// The outcome of the migration: the converted attestations (none when the storage is
/// already current), the storage reads and writes it made, and the storage version after.
pub struct MigrationOutcome {
    pub migrated: Option<Vec<StoredSignedAttestation>>,
    pub reads: u64,
    pub writes: u64,
    pub version: u16,
}

/// The migration of stored attestations to continuity proofs kept as roots.
pub struct MigrateAttestationContinuityProofV0ToV1;

impl MigrateAttestationContinuityProofV0ToV1 {
    /// Runs the migration on storage of version `on_chain_version` holding the
    /// attestations `stored`: storage already at the target version is left alone
    /// (one read); otherwise every attestation is converted and the version bumped
    /// (a read and a write per attestation, and one for the version).
    pub fn on_runtime_upgrade(on_chain_version: u16, stored: &Vec<OldSignedAttestation>) -> (o: MigrationOutcome)
        requires
            stored@.len() < u64::MAX,
        ensures
            on_chain_version >= CONTINUITY_PROOF_STORAGE_VERSION ==> {
                &&& o.migrated is None
                &&& o.reads == 1
                &&& o.writes == 0
                &&& o.version == on_chain_version
            },
            on_chain_version < CONTINUITY_PROOF_STORAGE_VERSION ==> {
                &&& o.migrated is Some
                &&& o.migrated->0@.len() == stored@.len()
                &&& forall|i: int| 0 <= i < stored@.len() ==> converted(#[trigger] stored@[i], o.migrated->0@[i])
                &&& o.reads == stored@.len() + 1
                &&& o.writes == stored@.len() + 1
                &&& o.version == CONTINUITY_PROOF_STORAGE_VERSION
            },
    {
        if on_chain_version >= CONTINUITY_PROOF_STORAGE_VERSION {
            return MigrationOutcome { migrated: None, reads: 1, writes: 0, version: on_chain_version };
        }
        let mut migrated: Vec<StoredSignedAttestation> = Vec::new();
        let mut i: usize = 0;
        while i < stored.len()
            invariant
                i <= stored@.len(),
                migrated@.len() == i,
                forall|j: int| 0 <= j < i ==> converted(#[trigger] stored@[j], migrated@[j]),
            decreases stored@.len() - i,
        {
            let new = convert_old_to_new(&stored[i]);
            migrated.push(new);
            i = i + 1;
        }
        let count = stored.len() as u64;
        MigrationOutcome {
            migrated: Some(migrated),
            reads: count + 1,
            writes: count + 1,
            version: CONTINUITY_PROOF_STORAGE_VERSION,
        }
    }
}

} // verus!
