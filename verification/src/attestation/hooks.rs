//! Hooks around attestation commits: the observer of committed attestations and the
//! transaction-pool check of `commit_attestation` calls.

use vstd::prelude::*;

use crate::attestation::model::SignedAttestation;
use crate::attestation::pallet::AttestationPallet;
use crate::attestation::store::is_duplicate;
use crate::types::{AccountId, ChainKey};

verus! {

/// Observes successful attestation commits.
pub trait CommittedAttestationObserver {
    /// Called with the signers of a committed attestation of `chain_key` that were in
    /// the active set: the set that passed the majority threshold.
    fn on_committed_eligible(chain_key: ChainKey, eligible_signers: &Vec<AccountId>);
}

/// The observer that does nothing.
pub struct NoopCommittedAttestationObserver;

impl CommittedAttestationObserver for NoopCommittedAttestationObserver {
    fn on_committed_eligible(chain_key: ChainKey, eligible_signers: &Vec<AccountId>) {
    }
}

/// Why the transaction pool refuses a call.
#[derive(Clone, Copy, Debug, PartialEq, Eq, Structural)]
pub enum InvalidTransaction {
    /// The call can no longer succeed.
    Stale,
}

/// The transaction-pool check of `commit_attestation` calls: it refuses, before any
/// fee is charged, a commit signed by an account outside the chain's active set and a
/// commit of an attestation already stored or superseded by a checkpoint.
#[derive(Clone, Copy, Debug, PartialEq, Eq, Structural)]
pub struct PrevalidateAttestationCommit;

impl PrevalidateAttestationCommit {
    pub fn new() -> (r: Self)
        ensures
            r == PrevalidateAttestationCommit,
    {
        PrevalidateAttestationCommit
    }

    /// Checks a call: `signer` is its signer, if signed, and `commit` the attestation
    /// it commits, if it is a `commit_attestation` call. Other calls pass.
    pub fn validate(
        &self,
        pallet: &AttestationPallet,
        signer: Option<AccountId>,
        commit: Option<&SignedAttestation>,
    ) -> (r: Result<(), InvalidTransaction>)
        requires
            pallet.wf(),
        ensures
            r is Err <==> (signer is Some && commit is Some && (!pallet.active_of(
                commit->0.chain_key,
            ).contains(signer->0) || is_duplicate(
                pallet.store.attestations@,
                pallet.store.last_checkpoint@.get(commit->0.chain_key),
                *commit->0,
            ))),
    {
        match (signer, commit) {
            (Some(who), Some(a)) => {
                if !pallet.is_attestor(a.chain_key, who) || pallet.store.check_duplicate(a) {
                    Err(InvalidTransaction::Stale)
                } else {
                    Ok(())
                }
            },
            _ => Ok(()),
        }
    }
}

impl Default for PrevalidateAttestationCommit {
    fn default() -> (r: Self)
        ensures
            r == PrevalidateAttestationCommit,
    {
        Self::new()
    }
}

} // verus!
