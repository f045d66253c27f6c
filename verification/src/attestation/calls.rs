//! The attestation pallet's calls: the operators' settings and the attestors'
//! own requests, each checking who made it before acting.

use vstd::prelude::*;

use crate::attestation::model::{
    AttestationCheckpoint, AttestorElectionPolicy, AttestorStatus, Error, Event, RuntimeAction, SignedAttestation,
};
use crate::attestation::pallet::{AttestationPallet, ChainParams};
use crate::attestation::registry::swap_removed;
use crate::attestation::store::{catchup_terminates, ChainStore};
use crate::types::{AccountId, Balance, BlsPublicKey, ChainKey};

verus! {

impl AttestationPallet {
    /// Every field but the chain parameters is that of `other`.
    pub open spec fn same_except_params(&self, other: Self) -> bool {
        &&& self.store == other.store
        &&& self.defaults == other.defaults
        &&& self.constants == other.constants
        &&& self.attestors == other.attestors
        &&& self.attestors_count == other.attestors_count
        &&& self.active_attestors == other.active_attestors
        &&& self.invulnerables == other.invulnerables
        &&& self.authorized == other.authorized
        &&& self.ledgers == other.ledgers
        &&& self.retired_keys == other.retired_keys
        &&& self.retired_by_stash == other.retired_by_stash
        &&& self.bls_key_owner == other.bls_key_owner
        &&& self.pending_intervals == other.pending_intervals
        &&& self.pending_sample_sizes == other.pending_sample_sizes
        &&& self.pending_max_catchup == other.pending_max_catchup
    }

    /// Every field but the pending updates is that of `other`.
    pub open spec fn same_except_pending(&self, other: Self) -> bool {
        &&& self.store == other.store
        &&& self.defaults == other.defaults
        &&& self.params == other.params
        &&& self.constants == other.constants
        &&& self.attestors == other.attestors
        &&& self.attestors_count == other.attestors_count
        &&& self.active_attestors == other.active_attestors
        &&& self.invulnerables == other.invulnerables
        &&& self.authorized == other.authorized
        &&& self.ledgers == other.ledgers
        &&& self.retired_keys == other.retired_keys
        &&& self.retired_by_stash == other.retired_by_stash
        &&& self.bls_key_owner == other.bls_key_owner
    }

    /// Replaces the parameters of `chain_key`.
    fn put_params(&mut self, chain_key: ChainKey, p: ChainParams)
        requires
            old(self).wf(),
        ensures
            final(self).wf(),
            final(self).params@ == old(self).params@.insert(chain_key, p),
            final(self).same_except_params(*old(self)),
    {
        self.params.insert(chain_key, p);
    }

    /// Schedules a new attestation interval for `chain_key`, applied at the next
    /// epoch. Only operators; the interval must be positive and the chain supported.
    pub fn set_chain_attestation_interval(
        &mut self,
        operator: bool,
        chain_key: ChainKey,
        interval: u64,
        chain_supported: bool,
        events: &mut Vec<Event>,
    ) -> (r: Result<(), Error>)
        requires
            old(self).wf(),
        ensures
            final(self).wf(),
            !operator ==> r == Err::<(), Error>(Error::BadOrigin),
            operator && interval == 0 ==> r == Err::<(), Error>(Error::InvalidAttestationInterval),
            operator && interval > 0 && !chain_supported ==> r == Err::<(), Error>(Error::ChainNotSupported),
            r is Err ==> *final(self) == *old(self) && final(events)@ == old(events)@,
            r is Ok <==> operator && interval > 0 && chain_supported,
            r is Ok ==> {
                &&& final(self).pending_intervals@ == old(self).pending_intervals@.insert(chain_key, interval)
                &&& final(self).pending_sample_sizes == old(self).pending_sample_sizes
                &&& final(self).pending_max_catchup == old(self).pending_max_catchup
                &&& final(self).same_except_pending(*old(self))
                &&& final(events)@ == old(events)@.push(Event::PendingAttestationIntervalSet(chain_key, interval))
            },
    {
        if !operator {
            return Err(Error::BadOrigin);
        }
        if interval == 0 {
            return Err(Error::InvalidAttestationInterval);
        }
        if !chain_supported {
            return Err(Error::ChainNotSupported);
        }
        self.pending_intervals.insert(chain_key, interval);
        events.push(Event::PendingAttestationIntervalSet(chain_key, interval));
        Ok(())
    }

    /// Schedules a new target sample size for `chain_key`, applied at the next epoch.
    /// Only operators; the size must be positive.
    pub fn set_target_sample_size(
        &mut self,
        operator: bool,
        chain_key: ChainKey,
        size: u32,
        events: &mut Vec<Event>,
    ) -> (r: Result<(), Error>)
        requires
            old(self).wf(),
        ensures
            final(self).wf(),
            !operator ==> r == Err::<(), Error>(Error::BadOrigin),
            operator && size == 0 ==> r == Err::<(), Error>(Error::InvalidTargetSampleSize),
            r is Err ==> *final(self) == *old(self) && final(events)@ == old(events)@,
            r is Ok <==> operator && size > 0,
            r is Ok ==> {
                &&& final(self).pending_sample_sizes@ == old(self).pending_sample_sizes@.insert(chain_key, size)
                &&& final(self).pending_intervals == old(self).pending_intervals
                &&& final(self).pending_max_catchup == old(self).pending_max_catchup
                &&& final(self).same_except_pending(*old(self))
                &&& final(events)@ == old(events)@.push(Event::PendingTargetSampleSizeSet(chain_key, size))
            },
    {
        if !operator {
            return Err(Error::BadOrigin);
        }
        if size == 0 {
            return Err(Error::InvalidTargetSampleSize);
        }
        self.pending_sample_sizes.insert(chain_key, size);
        events.push(Event::PendingTargetSampleSizeSet(chain_key, size));
        Ok(())
    }

    /// Schedules a new maximum catch-up for `chain_key`, applied at the next epoch.
    /// Only operators; the bound must be positive and the chain supported.
    pub fn set_max_catchup(
        &mut self,
        operator: bool,
        chain_key: ChainKey,
        max_catchup: u32,
        chain_supported: bool,
        events: &mut Vec<Event>,
    ) -> (r: Result<(), Error>)
        requires
            old(self).wf(),
        ensures
            final(self).wf(),
            !operator ==> r == Err::<(), Error>(Error::BadOrigin),
            operator && max_catchup == 0 ==> r == Err::<(), Error>(Error::InvalidMaxCatchup),
            operator && max_catchup > 0 && !chain_supported ==> r == Err::<(), Error>(Error::ChainNotSupported),
            r is Err ==> *final(self) == *old(self) && final(events)@ == old(events)@,
            r is Ok <==> operator && max_catchup > 0 && chain_supported,
            r is Ok ==> {
                &&& final(self).pending_max_catchup@ == old(self).pending_max_catchup@.insert(chain_key, max_catchup)
                &&& final(self).pending_intervals == old(self).pending_intervals
                &&& final(self).pending_sample_sizes == old(self).pending_sample_sizes
                &&& final(self).same_except_pending(*old(self))
                &&& final(events)@ == old(events)@.push(Event::PendingMaxCatchupSet(chain_key, max_catchup))
            },
    {
        if !operator {
            return Err(Error::BadOrigin);
        }
        if max_catchup == 0 {
            return Err(Error::InvalidMaxCatchup);
        }
        if !chain_supported {
            return Err(Error::ChainNotSupported);
        }
        self.pending_max_catchup.insert(chain_key, max_catchup);
        events.push(Event::PendingMaxCatchupSet(chain_key, max_catchup));
        Ok(())
    }

    /// Sets the most attestors `chain_key` may have. Only operators.
    pub fn set_max_attestors(&mut self, operator: bool, chain_key: ChainKey, new_max: u32, events: &mut Vec<Event>) -> (r:
        Result<(), Error>)
        requires
            old(self).wf(),
        ensures
            final(self).wf(),
            !operator ==> r == Err::<(), Error>(Error::BadOrigin) && *final(self) == *old(self) && final(events)@
                == old(events)@,
            operator ==> {
                let p = old(self).params_of(chain_key);
                &&& r is Ok
                &&& final(self).params_of(chain_key) == (ChainParams { max_attestors: new_max, ..p })
                &&& final(self).params@ == old(self).params@.insert(chain_key, final(self).params_of(chain_key))
                &&& final(self).same_except_params(*old(self))
                &&& final(events)@ == old(events)@.push(Event::MaxAttestorsChanged(chain_key, new_max))
            },
    {
        if !operator {
            return Err(Error::BadOrigin);
        }
        let p = self.params_for(chain_key);
        self.put_params(chain_key, ChainParams { max_attestors: new_max, ..p });
        events.push(Event::MaxAttestorsChanged(chain_key, new_max));
        Ok(())
    }
}

impl AttestationPallet {
    /// Sets how many attestations `chain_key` condenses into a checkpoint. Only
    /// operators; the number must be positive and the chain supported.
    pub fn set_attestations_per_checkpoint(
        &mut self,
        operator: bool,
        chain_key: ChainKey,
        per_checkpoint: u32,
        chain_supported: bool,
        events: &mut Vec<Event>,
    ) -> (r: Result<(), Error>)
        requires
            old(self).wf(),
        ensures
            final(self).wf(),
            !operator ==> r == Err::<(), Error>(Error::BadOrigin),
            operator && per_checkpoint == 0 ==> r == Err::<(), Error>(Error::InvalidAttestationsPerCheckpoint),
            operator && per_checkpoint > 0 && !chain_supported ==> r == Err::<(), Error>(Error::ChainNotSupported),
            r is Err ==> *final(self) == *old(self) && final(events)@ == old(events)@,
            r is Ok <==> operator && per_checkpoint > 0 && chain_supported,
            r is Ok ==> {
                &&& final(self).params@ == old(self).params@.insert(
                    chain_key,
                    ChainParams { checkpoint_interval: per_checkpoint, ..old(self).params_of(chain_key) },
                )
                &&& final(self).same_except_params(*old(self))
                &&& final(events)@ == old(events)@.push(Event::CheckpointIntervalChanged(chain_key, per_checkpoint))
            },
    {
        if !operator {
            return Err(Error::BadOrigin);
        }
        if per_checkpoint == 0 {
            return Err(Error::InvalidAttestationsPerCheckpoint);
        }
        if !chain_supported {
            return Err(Error::ChainNotSupported);
        }
        let p = self.params_for(chain_key);
        self.put_params(chain_key, ChainParams { checkpoint_interval: per_checkpoint, ..p });
        events.push(Event::CheckpointIntervalChanged(chain_key, per_checkpoint));
        Ok(())
    }

    /// Sets the bond each attestor of `chain_key` requires. Only operators.
    pub fn set_min_bond_requirement(
        &mut self,
        operator: bool,
        chain_key: ChainKey,
        min_bond: Balance,
        events: &mut Vec<Event>,
    ) -> (r: Result<(), Error>)
        requires
            old(self).wf(),
        ensures
            final(self).wf(),
            !operator ==> r == Err::<(), Error>(Error::BadOrigin) && *final(self) == *old(self) && final(events)@
                == old(events)@,
            operator ==> {
                &&& r is Ok
                &&& final(self).params@ == old(self).params@.insert(
                    chain_key,
                    ChainParams { min_bond, ..old(self).params_of(chain_key) },
                )
                &&& final(self).same_except_params(*old(self))
                &&& final(events)@ == old(events)@.push(Event::MinBondRequirementUpdated(chain_key, min_bond))
            },
    {
        if !operator {
            return Err(Error::BadOrigin);
        }
        let p = self.params_for(chain_key);
        self.put_params(chain_key, ChainParams { min_bond, ..p });
        events.push(Event::MinBondRequirementUpdated(chain_key, min_bond));
        Ok(())
    }

    /// Sets the block of `chain_key` that its first attestation must attest. Only
    /// operators, for a supported chain that has neither attestations nor checkpoints.
    pub fn set_attestation_chain_genesis_block_number(
        &mut self,
        operator: bool,
        chain_key: ChainKey,
        genesis_block_number: u64,
        chain_supported: bool,
        events: &mut Vec<Event>,
    ) -> (r: Result<(), Error>)
        requires
            old(self).wf(),
        ensures
            final(self).wf(),
            ({
                let s = old(self).store;
                let fresh = s.attestations.chain_keys(chain_key).len() == 0 && s.checkpoints.chain_keys(chain_key).len() == 0;
                &&& !operator ==> r == Err::<(), Error>(Error::BadOrigin)
                &&& operator && !chain_supported ==> r == Err::<(), Error>(Error::ChainNotSupported)
                &&& operator && chain_supported && !fresh ==> r == Err::<(), Error>(Error::AttestationsAlreadyExist)
                &&& r is Ok <==> operator && chain_supported && fresh
            }),
            r is Err ==> *final(self) == *old(self) && final(events)@ == old(events)@,
            r is Ok ==> {
                &&& final(self).params@ == old(self).params@.insert(
                    chain_key,
                    ChainParams { genesis_block_number, ..old(self).params_of(chain_key) },
                )
                &&& final(self).same_except_params(*old(self))
                &&& final(events)@ == old(events)@.push(
                    Event::AttestationChainGenesisBlockNumberSet(chain_key, genesis_block_number),
                )
            },
    {
        if !operator {
            return Err(Error::BadOrigin);
        }
        if !chain_supported {
            return Err(Error::ChainNotSupported);
        }
        let atts = self.store.attestations.keys_of_chain(chain_key);
        let cps = self.store.checkpoints.keys_of_chain(chain_key);
        if atts.len() != 0 || cps.len() != 0 {
            return Err(Error::AttestationsAlreadyExist);
        }
        let p = self.params_for(chain_key);
        self.put_params(chain_key, ChainParams { genesis_block_number, ..p });
        events.push(Event::AttestationChainGenesisBlockNumberSet(chain_key, genesis_block_number));
        Ok(())
    }

    /// Sets who may be elected on `chain_key`. Only operators, for a supported chain.
    pub fn set_election_policy(
        &mut self,
        operator: bool,
        chain_key: ChainKey,
        policy: AttestorElectionPolicy,
        chain_supported: bool,
        events: &mut Vec<Event>,
    ) -> (r: Result<(), Error>)
        requires
            old(self).wf(),
        ensures
            final(self).wf(),
            !operator ==> r == Err::<(), Error>(Error::BadOrigin),
            operator && !chain_supported ==> r == Err::<(), Error>(Error::ChainNotSupported),
            r is Err ==> *final(self) == *old(self) && final(events)@ == old(events)@,
            r is Ok <==> operator && chain_supported,
            r is Ok ==> {
                &&& final(self).params@ == old(self).params@.insert(
                    chain_key,
                    ChainParams { election_policy: policy, ..old(self).params_of(chain_key) },
                )
                &&& final(self).same_except_params(*old(self))
                &&& final(events)@ == old(events)@.push(Event::ChangedElectionPolicy(chain_key, policy))
            },
    {
        if !operator {
            return Err(Error::BadOrigin);
        }
        if !chain_supported {
            return Err(Error::ChainNotSupported);
        }
        let p = self.params_for(chain_key);
        self.put_params(chain_key, ChainParams { election_policy: policy, ..p });
        events.push(Event::ChangedElectionPolicy(chain_key, policy));
        Ok(())
    }

    /// Sets the most invulnerables `chain_key` may have; refused below the current
    /// number. Only operators.
    pub fn set_max_invulnerables(&mut self, operator: bool, chain_key: ChainKey, new_max: u32) -> (r: Result<(), Error>)
        requires
            old(self).wf(),
        ensures
            final(self).wf(),
            !operator ==> r == Err::<(), Error>(Error::BadOrigin),
            operator && (new_max as nat) < old(self).invulnerable_count(chain_key) ==> r == Err::<(), Error>(
                Error::MaxInvulnerablesCannotBeChanged,
            ),
            r is Err ==> *final(self) == *old(self),
            r is Ok <==> operator && new_max as nat >= old(self).invulnerable_count(chain_key),
            r is Ok ==> final(self).params@ == old(self).params@.insert(
                chain_key,
                ChainParams { max_invulnerables: new_max, ..old(self).params_of(chain_key) },
            ) && final(self).same_except_params(*old(self)),
    {
        if !operator {
            return Err(Error::BadOrigin);
        }
        let count = self.invulnerables.keys_of_chain(chain_key).len();
        if (new_max as u64) < (count as u64) {
            return Err(Error::MaxInvulnerablesCannotBeChanged);
        }
        let p = self.params_for(chain_key);
        self.put_params(chain_key, ChainParams { max_invulnerables: new_max, ..p });
        Ok(())
    }

    /// Makes `attestor` an invulnerable of `chain_key`. Only operators; refused when
    /// the list is full.
    pub fn register_invulnerable(&mut self, operator: bool, chain_key: ChainKey, attestor: AccountId, events: &mut Vec<Event>) -> (r:
        Result<(), Error>)
        requires
            old(self).wf(),
        ensures
            final(self).wf(),
            !operator ==> r == Err::<(), Error>(Error::BadOrigin),
            operator && old(self).invulnerable_count(chain_key) >= old(self).params_of(chain_key).max_invulnerables
                ==> r == Err::<(), Error>(Error::InvulnerableListFull),
            r is Err ==> *final(self) == *old(self) && final(events)@ == old(events)@,
            r is Ok <==> operator && old(self).invulnerable_count(chain_key) < old(self).params_of(
                chain_key,
            ).max_invulnerables,
            r is Ok ==> {
                &&& final(self).invulnerables@ == old(self).invulnerables@.insert((chain_key, attestor), ())
                &&& final(self).same_config_and_store(*old(self))
                &&& final(self).attestors == old(self).attestors
                &&& final(self).active_attestors == old(self).active_attestors
                &&& final(self).ledgers == old(self).ledgers
                &&& final(events)@ == old(events)@.push(Event::InvulnerableRegistered(chain_key, attestor))
            },
    {
        if !operator {
            return Err(Error::BadOrigin);
        }
        self.try_insert_invulnerable_and_emit_event(chain_key, attestor, events)
    }

    /// Removes `attestor` from the invulnerables of `chain_key`. Only operators; the
    /// attestor must be one.
    pub fn unregister_invulnerable(&mut self, operator: bool, chain_key: ChainKey, attestor: AccountId, events: &mut Vec<Event>) -> (r:
        Result<(), Error>)
        requires
            old(self).wf(),
        ensures
            final(self).wf(),
            !operator ==> r == Err::<(), Error>(Error::BadOrigin),
            operator && !old(self).invulnerables@.contains_key((chain_key, attestor)) ==> r == Err::<(), Error>(
                Error::AddressIsNotInvulnerable,
            ),
            r is Err ==> *final(self) == *old(self) && final(events)@ == old(events)@,
            r is Ok <==> operator && old(self).invulnerables@.contains_key((chain_key, attestor)),
            r is Ok ==> {
                &&& final(self).invulnerables@ == old(self).invulnerables@.remove((chain_key, attestor))
                &&& final(self).same_config_and_store(*old(self))
                &&& final(self).attestors == old(self).attestors
                &&& final(self).active_attestors == old(self).active_attestors
                &&& final(self).ledgers == old(self).ledgers
                &&& final(events)@ == old(events)@.push(Event::InvulnerableUnregistered(chain_key, attestor))
            },
    {
        if !operator {
            return Err(Error::BadOrigin);
        }
        if !self.address_is_invulnerable(chain_key, attestor) {
            return Err(Error::AddressIsNotInvulnerable);
        }
        self.remove_invulnerable_and_emit_event(chain_key, attestor, events);
        Ok(())
    }

    /// Pre-authorizes the registered attestor `attestor_id` of the supported chain
    /// `chain_key`. Only operators; refused when it already is.
    pub fn authorize_attestor(
        &mut self,
        operator: bool,
        chain_key: ChainKey,
        attestor_id: AccountId,
        chain_supported: bool,
        events: &mut Vec<Event>,
    ) -> (r: Result<(), Error>)
        requires
            old(self).wf(),
        ensures
            final(self).wf(),
            !operator ==> r == Err::<(), Error>(Error::BadOrigin),
            operator && !chain_supported ==> r == Err::<(), Error>(Error::ChainNotSupported),
            operator && chain_supported && !old(self).attestors@.contains_key((chain_key, attestor_id)) ==> r
                == Err::<(), Error>(Error::AddressNotAttestor),
            operator && chain_supported && old(self).attestors@.contains_key((chain_key, attestor_id))
                && old(self).authorized@.contains_key((chain_key, attestor_id)) ==> r == Err::<(), Error>(
                Error::AttestorAlreadyAuthorized,
            ),
            r is Err ==> *final(self) == *old(self) && final(events)@ == old(events)@,
            r is Ok <==> operator && chain_supported && old(self).attestors@.contains_key((chain_key, attestor_id))
                && !old(self).authorized@.contains_key((chain_key, attestor_id)),
            r is Ok ==> {
                &&& final(self).authorized@ == old(self).authorized@.insert((chain_key, attestor_id), ())
                &&& final(self).same_except_authorized(*old(self))
                &&& final(events)@ == old(events)@.push(Event::AuthorizedAttestorAdded(chain_key, attestor_id))
            },
    {
        if !operator {
            return Err(Error::BadOrigin);
        }
        if !chain_supported {
            return Err(Error::ChainNotSupported);
        }
        if !self.attestors.contains_key(&(chain_key, attestor_id)) {
            return Err(Error::AddressNotAttestor);
        }
        if self.authorized.contains_key(&(chain_key, attestor_id)) {
            return Err(Error::AttestorAlreadyAuthorized);
        }
        self.authorized.insert((chain_key, attestor_id), ());
        events.push(Event::AuthorizedAttestorAdded(chain_key, attestor_id));
        Ok(())
    }

    /// Withdraws the pre-authorization of `attestor_id` on `chain_key`. Only
    /// operators; the attestor must be authorized.
    pub fn remove_authorized_attestor(
        &mut self,
        operator: bool,
        chain_key: ChainKey,
        attestor_id: AccountId,
        events: &mut Vec<Event>,
    ) -> (r: Result<(), Error>)
        requires
            old(self).wf(),
        ensures
            final(self).wf(),
            !operator ==> r == Err::<(), Error>(Error::BadOrigin),
            operator && !old(self).authorized@.contains_key((chain_key, attestor_id)) ==> r == Err::<(), Error>(
                Error::AttestorNotAuthorized,
            ),
            r is Err ==> *final(self) == *old(self) && final(events)@ == old(events)@,
            r is Ok <==> operator && old(self).authorized@.contains_key((chain_key, attestor_id)),
            r is Ok ==> {
                &&& final(self).authorized@ == old(self).authorized@.remove((chain_key, attestor_id))
                &&& final(self).same_except_authorized(*old(self))
                &&& final(events)@ == old(events)@.push(Event::AuthorizedAttestorRemoved(chain_key, attestor_id))
            },
    {
        if !operator {
            return Err(Error::BadOrigin);
        }
        if !self.authorized.contains_key(&(chain_key, attestor_id)) {
            return Err(Error::AttestorNotAuthorized);
        }
        let _ = self.authorized.remove(&(chain_key, attestor_id));
        events.push(Event::AuthorizedAttestorRemoved(chain_key, attestor_id));
        Ok(())
    }

    /// Every field but the authorizations is that of `other`.
    pub open spec fn same_except_authorized(&self, other: Self) -> bool {
        &&& self.store == other.store
        &&& self.defaults == other.defaults
        &&& self.params == other.params
        &&& self.constants == other.constants
        &&& self.attestors == other.attestors
        &&& self.attestors_count == other.attestors_count
        &&& self.active_attestors == other.active_attestors
        &&& self.invulnerables == other.invulnerables
        &&& self.ledgers == other.ledgers
        &&& self.retired_keys == other.retired_keys
        &&& self.retired_by_stash == other.retired_by_stash
        &&& self.bls_key_owner == other.bls_key_owner
        &&& self.pending_intervals == other.pending_intervals
        &&& self.pending_sample_sizes == other.pending_sample_sizes
        &&& self.pending_max_catchup == other.pending_max_catchup
    }
}

/// `post` (with events `e1`) is `pre` (with events `e0`) after attestor `id` of
/// `chain_key` was set idle at once and dropped from the active set.
pub open spec fn chilled_now(
    pre: AttestationPallet,
    post: AttestationPallet,
    e0: Seq<Event>,
    e1: Seq<Event>,
    chain_key: ChainKey,
    id: AccountId,
) -> bool {
    &&& post.wf()
    &&& post.attestors@ == AttestationPallet::with_status(pre.attestors@, chain_key, id, AttestorStatus::Idle)
    &&& post.active_of(chain_key) == swap_removed(pre.active_of(chain_key), id)
    &&& forall|c: ChainKey| c != chain_key ==> #[trigger] post.active_of(c) == pre.active_of(c)
    &&& post.same_config_and_store(pre)
    &&& post.attestors_count == pre.attestors_count
    &&& post.invulnerables == pre.invulnerables
    &&& post.authorized == pre.authorized
    &&& post.ledgers == pre.ledgers
    &&& post.retired_keys == pre.retired_keys
    &&& post.retired_by_stash == pre.retired_by_stash
    &&& post.bls_key_owner == pre.bls_key_owner
    &&& e1 == e0.push(Event::AttestorChilled(chain_key, id))
}

impl AttestationPallet {
    /// Registers `attestor_id` on `chain_key` for the signer, who becomes its stash.
    pub fn register_attestor(
        &mut self,
        who: Option<AccountId>,
        chain_key: ChainKey,
        attestor_id: AccountId,
        chain_supported: bool,
        bondable: Balance,
        stash_free: Balance,
        events: &mut Vec<Event>,
    ) -> (r: Result<Vec<RuntimeAction>, Error>)
        requires
            old(self).wf(),
        ensures
            final(self).wf(),
            who is None ==> r == Err::<Vec<RuntimeAction>, Error>(Error::BadOrigin) && *final(self) == *old(self)
                && final(events)@ == old(events)@,
            who is Some ==> Self::registration_effect(
                *old(self),
                *final(self),
                old(events)@,
                final(events)@,
                chain_key,
                who->0,
                attestor_id,
                chain_supported,
                bondable,
                stash_free,
                r,
            ),
    {
        match who {
            None => Err(Error::BadOrigin),
            Some(stash) => self.try_insert_attestor_and_emit_event(
                chain_key,
                stash,
                attestor_id,
                chain_supported,
                bondable,
                stash_free,
                events,
            ),
        }
    }

    /// Unregisters the signer's idle attestor `attestor_id` of `chain_key`.
    pub fn unregister_attestor(
        &mut self,
        who: Option<AccountId>,
        chain_key: ChainKey,
        attestor_id: AccountId,
        current_era: u32,
        events: &mut Vec<Event>,
    ) -> (r: Result<(), Error>)
        requires
            old(self).wf(),
        ensures
            final(self).wf(),
            who is None ==> r == Err::<(), Error>(Error::BadOrigin) && *final(self) == *old(self) && final(events)@
                == old(events)@,
            who is Some ==> Self::removal_effect(
                *old(self),
                *final(self),
                old(events)@,
                final(events)@,
                chain_key,
                who->0,
                attestor_id,
                current_era,
                r,
            ),
    {
        match who {
            None => Err(Error::BadOrigin),
            Some(stash) => self.remove_attestor_and_emit_event(chain_key, stash, attestor_id, current_era, events),
        }
    }

    /// The signer, an attestor of `chain_key`, starts attesting with `key`, proven by
    /// `proof`.
    pub fn attest(
        &mut self,
        who: Option<AccountId>,
        chain_key: ChainKey,
        key: BlsPublicKey,
        proof: &Vec<u8>,
        events: &mut Vec<Event>,
    ) -> (r: Result<(), Error>)
        requires
            old(self).wf(),
        ensures
            final(self).wf(),
            who is None ==> r == Err::<(), Error>(Error::BadOrigin) && *final(self) == *old(self) && final(events)@
                == old(events)@,
            who is Some ==> Self::attesting_effect(
                *old(self),
                *final(self),
                old(events)@,
                final(events)@,
                chain_key,
                who->0,
                key,
                proof@,
                r,
            ),
    {
        match who {
            None => Err(Error::BadOrigin),
            Some(id) => self.start_attesting(chain_key, id, key, proof, events),
        }
    }

    /// The signer withdraws its unbonded funds.
    pub fn withdraw_unbonded(
        &mut self,
        who: Option<AccountId>,
        current_era: u32,
        existential_deposit: Balance,
        events: &mut Vec<Event>,
    ) -> (r: Result<Vec<RuntimeAction>, Error>)
        requires
            old(self).wf(),
        ensures
            final(self).wf(),
            who is None ==> r == Err::<Vec<RuntimeAction>, Error>(Error::BadOrigin) && *final(self) == *old(self)
                && final(events)@ == old(events)@,
            who is Some ==> Self::withdrawal_effect(
                *old(self),
                *final(self),
                old(events)@,
                final(events)@,
                who->0,
                current_era,
                existential_deposit,
                r,
            ),
    {
        match who {
            None => Err(Error::BadOrigin),
            Some(stash) => self.do_withdraw_unbonded(stash, current_era, existential_deposit, events),
        }
    }

    /// Stores an attestation without validation. Only operators.
    pub fn bootstrap_chain(
        &mut self,
        operator: bool,
        a: SignedAttestation,
        chain_supported: bool,
        events: &mut Vec<Event>,
    ) -> (r: Result<(), Error>)
        requires
            old(self).wf(),
        ensures
            final(self).wf(),
            !operator ==> r == Err::<(), Error>(Error::BadOrigin) && *final(self) == *old(self) && final(events)@
                == old(events)@,
            operator ==> Self::bootstrap_effect(*old(self), *final(self), old(events)@, final(events)@, a, chain_supported, r),
    {
        if !operator {
            return Err(Error::BadOrigin);
        }
        self.do_bootstrap_chain(a, chain_supported, events)
    }

    /// Commits attestation `a`; only a member of the active set of its chain may.
    pub fn commit_attestation(
        &mut self,
        who: Option<AccountId>,
        a: SignedAttestation,
        chain_supported: bool,
        threshold: u32,
        events: &mut Vec<Event>,
    ) -> (r: Result<(), Error>)
        requires
            old(self).wf(),
            catchup_terminates(
                a,
                old(self).params_of(a.chain_key).attestation_interval,
                old(self).params_of(a.chain_key).checkpoint_interval,
            ),
        ensures
            final(self).wf(),
            who is None ==> r == Err::<(), Error>(Error::BadOrigin) && *final(self) == *old(self) && final(events)@
                == old(events)@,
            who is Some && !old(self).active_of(a.chain_key).contains(who->0) ==> r == Err::<(), Error>(
                Error::AttestorNotActive,
            ) && *final(self) == *old(self) && final(events)@ == old(events)@,
            who is Some && old(self).active_of(a.chain_key).contains(who->0) ==> Self::commit_attestation_effect(
                *old(self),
                *final(self),
                old(events)@,
                final(events)@,
                a,
                chain_supported,
                threshold,
                r,
            ),
    {
        let account = match who {
            None => {
                return Err(Error::BadOrigin);
            },
            Some(x) => x,
        };
        let active = self.active_for(a.chain_key);
        if !crate::attestation::pallet::contains_account(&active, account) {
            return Err(Error::AttestorNotActive);
        }
        self.do_commit_attestation(a, chain_supported, threshold, events)
    }

    /// Imports checkpoints of `chain_key`. Only operators.
    pub fn import_checkpoints(
        &mut self,
        operator: bool,
        chain_key: ChainKey,
        chain_supported: bool,
        checkpoints: &Vec<AttestationCheckpoint>,
        events: &mut Vec<Event>,
    ) -> (r: Result<(), Error>)
        requires
            old(self).wf(),
        ensures
            final(self).wf(),
            !operator ==> r == Err::<(), Error>(Error::BadOrigin) && *final(self) == *old(self) && final(events)@
                == old(events)@,
            operator ==> final(self).same_outside_store(*old(self)) && ChainStore::import_effect(
                old(self).store,
                final(self).store,
                old(events)@,
                final(events)@,
                chain_key,
                chain_supported,
                checkpoints@,
                r,
            ),
    {
        if !operator {
            return Err(Error::BadOrigin);
        }
        self.store.do_import_checkpoints(chain_key, chain_supported, checkpoints, events)
    }

    /// Sets attestor `attestor_id` of `chain_key` (if registered) idle and reports it.
    pub fn do_chill_attestor(&mut self, chain_key: ChainKey, attestor_id: AccountId, events: &mut Vec<Event>)
        requires
            old(self).wf(),
        ensures
            final(self).wf(),
            final(self).attestors@ == Self::with_status(
                old(self).attestors@,
                chain_key,
                attestor_id,
                AttestorStatus::Idle,
            ),
            final(self).same_config_and_store(*old(self)),
            final(self).attestors_count == old(self).attestors_count,
            final(self).active_attestors == old(self).active_attestors,
            final(self).invulnerables == old(self).invulnerables,
            final(self).authorized == old(self).authorized,
            final(self).ledgers == old(self).ledgers,
            final(self).retired_keys == old(self).retired_keys,
            final(self).retired_by_stash == old(self).retired_by_stash,
            final(self).bls_key_owner == old(self).bls_key_owner,
            final(events)@ == old(events)@.push(Event::AttestorChilled(chain_key, attestor_id)),
    {
        self.set_status(chain_key, attestor_id, AttestorStatus::Idle);
        events.push(Event::AttestorChilled(chain_key, attestor_id));
    }

    /// The signer sets its attestor `attestor_id` of `chain_key` idle.
    pub fn chill(&mut self, who: Option<AccountId>, chain_key: ChainKey, attestor_id: AccountId, events: &mut Vec<Event>) -> (r:
        Result<(), Error>)
        requires
            old(self).wf(),
        ensures
            final(self).wf(),
            who is None ==> r == Err::<(), Error>(Error::BadOrigin),
            who is Some && !old(self).attestors@.contains_key((chain_key, attestor_id)) ==> r == Err::<(), Error>(
                Error::AddressNotAttestor,
            ),
            who is Some && old(self).attestors@.contains_key((chain_key, attestor_id)) && old(self).attestors@[(
                chain_key,
                attestor_id,
            )].stash != who->0 ==> r == Err::<(), Error>(Error::NotYourAttestor),
            r is Err ==> *final(self) == *old(self) && final(events)@ == old(events)@,
            r is Ok <==> who is Some && old(self).attestors@.contains_key((chain_key, attestor_id))
                && old(self).attestors@[(chain_key, attestor_id)].stash == who->0,
            r is Ok ==> {
                &&& final(self).attestors@ == Self::with_status(
                    old(self).attestors@,
                    chain_key,
                    attestor_id,
                    AttestorStatus::Idle,
                )
                &&& final(self).same_config_and_store(*old(self))
                &&& final(self).attestors_count == old(self).attestors_count
                &&& final(self).active_attestors == old(self).active_attestors
                &&& final(self).invulnerables == old(self).invulnerables
                &&& final(self).authorized == old(self).authorized
                &&& final(self).ledgers == old(self).ledgers
                &&& final(self).retired_keys == old(self).retired_keys
                &&& final(self).retired_by_stash == old(self).retired_by_stash
                &&& final(self).bls_key_owner == old(self).bls_key_owner
                &&& final(events)@ == old(events)@.push(Event::AttestorChilled(chain_key, attestor_id))
            },
    {
        let account = match who {
            None => {
                return Err(Error::BadOrigin);
            },
            Some(x) => x,
        };
        let a = match self.attestors.get(&(chain_key, attestor_id)) {
            Some(a) => *a,
            None => {
                return Err(Error::AddressNotAttestor);
            },
        };
        if a.stash != account {
            return Err(Error::NotYourAttestor);
        }
        self.do_chill_attestor(chain_key, attestor_id, events);
        Ok(())
    }

    /// Why unregistering attestor `attestor_id` of `chain_key` after chilling it is
    /// refused, if it is: its stash has no ledger, no room for another unlock chunk,
    /// or (holding a key) no room for another retired key.
    pub open spec fn kick_verdict(&self, chain_key: ChainKey, attestor_id: AccountId) -> Result<(), Error> {
        let a = self.attestors@[(chain_key, attestor_id)];
        if !self.ledgers@.contains_key(a.stash) {
            Err(Error::NotStash)
        } else if self.ledgers@[a.stash].unlocking@.len() >= self.constants.max_unlocking_chunks {
            Err(Error::NoMoreChunks)
        } else if a.bls_public_key is Some && self.retired_pairs_of(a.stash).len()
            >= self.constants.max_retired_per_stash {
            Err(Error::RetiredAttestorPendingFull)
        } else {
            Ok(())
        }
    }

    /// Sets attestor `attestor_id` of `chain_key` idle at once and drops it from the
    /// active set; with `unregister`, also unregisters it for its stash. Only
    /// operators. On error nothing changes.
    pub fn kick_active_attestor(
        &mut self,
        operator: bool,
        chain_key: ChainKey,
        attestor_id: AccountId,
        unregister: bool,
        current_era: u32,
        events: &mut Vec<Event>,
    ) -> (r: Result<(), Error>)
        requires
            old(self).wf(),
        ensures
            final(self).wf(),
            !operator ==> r == Err::<(), Error>(Error::BadOrigin),
            operator && !old(self).attestors@.contains_key((chain_key, attestor_id)) ==> r == Err::<(), Error>(
                Error::AddressNotAttestor,
            ),
            operator && old(self).attestors@.contains_key((chain_key, attestor_id)) && unregister && old(
                self,
            ).kick_verdict(chain_key, attestor_id) is Err ==> r == Err::<(), Error>(
                old(self).kick_verdict(chain_key, attestor_id)->Err_0,
            ),
            r is Err ==> *final(self) == *old(self) && final(events)@ == old(events)@,
            r is Ok <==> operator && old(self).attestors@.contains_key((chain_key, attestor_id)) && (!unregister
                || old(self).kick_verdict(chain_key, attestor_id) is Ok),
            r is Ok && !unregister ==> chilled_now(
                *old(self),
                *final(self),
                old(events)@,
                final(events)@,
                chain_key,
                attestor_id,
            ),
            r is Ok && unregister ==> exists|mid: AttestationPallet, em: Seq<Event>|
                {
                    &&& chilled_now(*old(self), mid, old(events)@, em, chain_key, attestor_id)
                    &&& #[trigger] Self::removal_effect(
                        mid,
                        *final(self),
                        em,
                        final(events)@,
                        chain_key,
                        old(self).attestors@[(chain_key, attestor_id)].stash,
                        attestor_id,
                        current_era,
                        r,
                    )
                },
    {
        if !operator {
            return Err(Error::BadOrigin);
        }
        let a = match self.attestors.get(&(chain_key, attestor_id)) {
            Some(a) => *a,
            None => {
                return Err(Error::AddressNotAttestor);
            },
        };
        if unregister {
            let chunks = match self.ledgers.get(&a.stash) {
                Some(l) => l.unlocking.len(),
                None => {
                    return Err(Error::NotStash);
                },
            };
            if chunks as u64 >= self.constants.max_unlocking_chunks as u64 {
                return Err(Error::NoMoreChunks);
            }
            let pending = match self.retired_by_stash.get(&a.stash) {
                Some(v) => v.len(),
                None => 0,
            };
            if a.bls_public_key.is_some() && pending as u64 >= self.constants.max_retired_per_stash as u64 {
                return Err(Error::RetiredAttestorPendingFull);
            }
        }
        self.do_chill_attestor_immediate(chain_key, attestor_id, events);
        if unregister {
            let ghost mid = *self;
            let ghost em = events@;
            proof {
                assert(chilled_now(*old(self), mid, old(events)@, em, chain_key, attestor_id));
                assert(mid.retired_pairs_of(a.stash) == old(self).retired_pairs_of(a.stash));
                assert(mid.attestors@[(chain_key, attestor_id)].status == AttestorStatus::Idle);
                assert(mid.remove_verdict(chain_key, a.stash, attestor_id) is Ok);
            }
            let r = self.remove_attestor_and_emit_event(chain_key, a.stash, attestor_id, current_era, events);
            proof {
                assert(Self::removal_effect(mid, *self, em, events@, chain_key, a.stash, attestor_id, current_era, r));
            }
            return r;
        }
        Ok(())
    }

    /// Runs an election now for the supported chains, and reports it. Only operators.
    pub fn force_election(
        &mut self,
        operator: bool,
        epoch: u64,
        supported_chains: &Vec<ChainKey>,
        events: &mut Vec<Event>,
    ) -> (r: Result<(), Error>)
        requires
            old(self).wf(),
        ensures
            final(self).wf(),
            !operator ==> r == Err::<(), Error>(Error::BadOrigin) && *final(self) == *old(self) && final(events)@
                == old(events)@,
            operator ==> {
                let res = crate::attestation::registry::election_result(*old(self), epoch, supported_chains@);
                &&& r is Ok
                &&& final(self).same_except_election(*old(self))
                &&& final(self).attestors@ == res.0
                &&& forall|c: ChainKey| #[trigger] final(self).active_of(c) == res.1[c]
                &&& final(events)@.len() > 0
                &&& crate::attestation::registry::appended_reports(old(events)@, final(events)@.drop_last(), res.2)
                &&& final(events)@.last() == Event::ForcedElection { epoch }
            },
    {
        if !operator {
            return Err(Error::BadOrigin);
        }
        self.do_start_election(epoch, supported_chains, events);
        let ghost e = events@;
        events.push(Event::ForcedElection { epoch });
        proof {
            assert(events@.drop_last() =~= e);
        }
        Ok(())
    }

    /// Whether committing `a` costs a fee: it does unless every signer of `a` is in
    /// the active set of its chain.
    pub fn pays_fee(&self, a: &SignedAttestation) -> (pays: bool)
        requires
            self.wf(),
        ensures
            pays <==> exists|i: int| 0 <= i < a.attestors@.len() && !self.active_of(a.chain_key).contains(
                #[trigger] a.attestors@[i],
            ),
    {
        let active = self.active_for(a.chain_key);
        let mut i: usize = 0;
        while i < a.attestors.len()
            invariant
                i <= a.attestors@.len(),
                active@ == self.active_of(a.chain_key),
                forall|j: int| 0 <= j < i ==> self.active_of(a.chain_key).contains(#[trigger] a.attestors@[j]),
            decreases a.attestors@.len() - i,
        {
            if !crate::attestation::pallet::contains_account(&active, a.attestors[i]) {
                return true;
            }
            i = i + 1;
        }
        false
    }
}

impl AttestationPallet {
    /// Applies the pending parameter updates now, and reports it. Only operators.
    pub fn force_apply_updates(&mut self, operator: bool, supported_count: u32, events: &mut Vec<Event>) -> (r: Result<
        (),
        Error,
    >)
        requires
            old(self).wf(),
        ensures
            final(self).wf(),
            !operator ==> r == Err::<(), Error>(Error::BadOrigin) && *final(self) == *old(self) && final(events)@
                == old(events)@,
            operator ==> r is Ok && exists|e: Seq<Event>|
                {
                    &&& #[trigger] Self::updates_applied(*old(self), *final(self), old(events)@, e, supported_count)
                    &&& final(events)@ == e.push(Event::ForcedUpdatesApplied)
                },
    {
        if !operator {
            return Err(Error::BadOrigin);
        }
        self.apply_interval_updates(supported_count, events);
        let ghost e = events@;
        events.push(Event::ForcedUpdatesApplied);
        proof {
            assert(Self::updates_applied(*old(self), *self, old(events)@, e, supported_count));
        }
        Ok(())
    }

    /// At a new epoch: elects the attestors of the supported chains, then applies the
    /// pending parameter updates.
    pub fn on_new_epoch_randomness(&mut self, epoch: u64, supported_chains: &Vec<ChainKey>, events: &mut Vec<Event>)
        requires
            old(self).wf(),
            supported_chains@.len() <= u32::MAX,
        ensures
            final(self).wf(),
            exists|mid: AttestationPallet, em: Seq<Event>|
                {
                    &&& mid.same_except_election(*old(self))
                    &&& mid.attestors@ == crate::attestation::registry::election_result(
                        *old(self),
                        epoch,
                        supported_chains@,
                    ).0
                    &&& forall|c: ChainKey| #[trigger] mid.active_of(c) == crate::attestation::registry::election_result(
                        *old(self),
                        epoch,
                        supported_chains@,
                    ).1[c]
                    &&& crate::attestation::registry::appended_reports(
                        old(events)@,
                        em,
                        crate::attestation::registry::election_result(*old(self), epoch, supported_chains@).2,
                    )
                    &&& #[trigger] Self::updates_applied(
                        mid,
                        *final(self),
                        em,
                        final(events)@,
                        supported_chains@.len() as u32,
                    )
                },
    {
        self.do_start_election(epoch, supported_chains, events);
        let ghost mid = *self;
        let ghost e = events@;
        self.apply_interval_updates(supported_chains.len() as u32, events);
        proof {
            assert(Self::updates_applied(mid, *self, e, events@, supported_chains@.len() as u32));
        }
    }
}

} // verus!
