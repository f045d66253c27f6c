use vstd::prelude::*;

use crate::attestation::model::{
    Attestor, AttestorElectionPolicy, Error, Event, RetiredAttestorBlsKeyEntry, SignedAttestation,
};
use crate::attestation::model::{AttestationCheckpoint, CheckpointPruningState};
use crate::attestation::store::{
    bucket_index, catchup_effect, catchup_plan, catchup_terminates, checkpoint_effect,
    continuity_check, is_duplicate, ChainStore,
};
use crate::bls::{
    aggregate_verifies, bls_aggregate_verifies, bls_public_key_decodes, bls_signature_decodes,
    keys_bytes, public_key_decodes, signature_decodes,
};
use crate::keymap::KeyMap;
use crate::ledger::AttestorLedger;
use crate::types::{AccountId, Balance, BlsPublicKey, ChainKey, Digest};

verus! {

/// The parameters of one chain's attestation.
#[derive(Clone, Copy, Debug, PartialEq, Eq, Structural)]
pub struct ChainParams {
    /// Blocks between two attestations.
    pub attestation_interval: u64,
    /// Attestations condensed into one checkpoint.
    pub checkpoint_interval: u32,
    /// Attestations kept after they were condensed into a checkpoint.
    pub retention: u32,
    /// Size of the attestor sample that signs an attestation.
    pub target_sample_size: u32,
    pub max_attestors: u32,
    pub max_invulnerables: u32,
    /// Bond each attestor of the chain requires from its stash.
    pub min_bond: Balance,
    /// Block number of the first attestation of the chain.
    pub genesis_block_number: u64,
    pub election_policy: AttestorElectionPolicy,
    pub max_catchup: u32,
}

/// Runtime constants of the attestation pallet.
#[derive(Clone, Copy, Debug, PartialEq, Eq, Structural)]
pub struct PalletConstants {
    /// Most unlock chunks a ledger may hold.
    pub max_unlocking_chunks: u32,
    /// Eras a bond stays locked after it is unbonded.
    pub bonding_duration: u32,
    /// Minimum balance of a bond-asset account.
    pub bond_existential_deposit: Balance,
    /// Minimum balance of a native-currency account.
    pub native_existential_deposit: Balance,
    /// The account that holds the bonded assets.
    pub bond_pool: AccountId,
    /// Native amount a stash gives each attestor it registers.
    pub attestor_funding: Balance,
    /// Most retired keys a stash may have pending.
    pub max_retired_per_stash: u32,
}

/// The attestation pallet's state.
pub struct AttestationPallet {
    pub store: ChainStore,
    /// Parameters of chains that have no entry in `params`.
    pub defaults: ChainParams,
    pub params: KeyMap<ChainKey, ChainParams>,
    pub constants: PalletConstants,
    pub attestors: KeyMap<(ChainKey, AccountId), Attestor>,
    pub attestors_count: KeyMap<ChainKey, u32>,
    pub active_attestors: KeyMap<ChainKey, Vec<AccountId>>,
    pub invulnerables: KeyMap<(ChainKey, AccountId), ()>,
    pub authorized: KeyMap<(ChainKey, AccountId), ()>,
    /// Bond ledgers by stash.
    pub ledgers: KeyMap<AccountId, AttestorLedger>,
    /// BLS keys of unregistered attestors, kept until their unbonding ends.
    pub retired_keys: KeyMap<(ChainKey, AccountId), RetiredAttestorBlsKeyEntry>,
    /// The retired keys of each stash.
    pub retired_by_stash: KeyMap<AccountId, Vec<(ChainKey, AccountId)>>,
    /// The controller that holds each BLS key of a chain.
    pub bls_key_owner: KeyMap<(ChainKey, BlsPublicKey), AccountId>,
    pub pending_intervals: KeyMap<ChainKey, u64>,
    pub pending_sample_sizes: KeyMap<ChainKey, u32>,
    pub pending_max_catchup: KeyMap<ChainKey, u32>,
}

/// The key that signs for attestor `id` of chain `chain_key`: its registered key,
/// else its retired key.
pub open spec fn attestor_key(
    attestors: Map<(ChainKey, AccountId), Attestor>,
    retired: Map<(ChainKey, AccountId), RetiredAttestorBlsKeyEntry>,
    chain_key: ChainKey,
    id: AccountId,
) -> Result<BlsPublicKey, Error> {
    if attestors.contains_key((chain_key, id)) && attestors[(chain_key, id)].bls_public_key is Some {
        Ok(attestors[(chain_key, id)].bls_public_key->0)
    } else if retired.contains_key((chain_key, id)) {
        Ok(retired[(chain_key, id)].bls_public_key)
    } else if attestors.contains_key((chain_key, id)) {
        Err(Error::AttestorWithInvalidPublicKey)
    } else {
        Err(Error::InvalidAttestorFound)
    }
}

/// The keys of the attestors `ids`, in order; the first attestor without a usable key
/// gives the error.
pub open spec fn gathered_keys(
    attestors: Map<(ChainKey, AccountId), Attestor>,
    retired: Map<(ChainKey, AccountId), RetiredAttestorBlsKeyEntry>,
    chain_key: ChainKey,
    ids: Seq<AccountId>,
) -> Result<Seq<BlsPublicKey>, Error>
    decreases ids.len(),
{
    if ids.len() == 0 {
        Ok(Seq::empty())
    } else {
        match gathered_keys(attestors, retired, chain_key, ids.drop_last()) {
            Err(e) => Err(e),
            Ok(ks) => match attestor_key(attestors, retired, chain_key, ids.last()) {
                Err(e) => Err(e),
                Ok(k) => if bls_public_key_decodes(k.spec_bytes()) {
                    Ok(ks.push(k))
                } else {
                    Err(Error::AttestorWithInvalidPublicKey)
                },
            },
        }
    }
}

/// The keys of `ks` without repetitions, each at its first position.
pub open spec fn distinct_keys(ks: Seq<BlsPublicKey>) -> Seq<BlsPublicKey>
    decreases ks.len(),
{
    if ks.len() == 0 {
        ks
    } else {
        let d = distinct_keys(ks.drop_last());
        if d.contains(ks.last()) {
            d
        } else {
            d.push(ks.last())
        }
    }
}

/// The signers of an attestation that are in the active set.
pub open spec fn eligible_signers(active: Seq<AccountId>, ids: Seq<AccountId>) -> Set<AccountId> {
    ids.to_set().filter(|x: AccountId| active.contains(x))
}

impl AttestationPallet {
    pub open spec fn wf(&self) -> bool {
        &&& self.store.wf()
        &&& self.params.wf()
        &&& self.attestors.wf()
        &&& self.attestors_count.wf()
        &&& self.active_attestors.wf()
        &&& self.invulnerables.wf()
        &&& self.authorized.wf()
        &&& self.ledgers.wf()
        &&& self.retired_keys.wf()
        &&& self.retired_by_stash.wf()
        &&& self.bls_key_owner.wf()
        &&& self.pending_intervals.wf()
        &&& self.pending_sample_sizes.wf()
        &&& self.pending_max_catchup.wf()
        &&& self.ledgers_balanced()
    }

    /// Every ledger's books balance.
    pub open spec fn ledgers_balanced(&self) -> bool {
        forall|s: AccountId| #[trigger] self.ledgers@.contains_key(s) ==> self.ledgers@[s].balanced()
    }

    /// The parameters of `chain_key`.
    pub open spec fn params_of(&self, chain_key: ChainKey) -> ChainParams {
        if self.params@.contains_key(chain_key) {
            self.params@[chain_key]
        } else {
            self.defaults
        }
    }

    /// The active attestors of `chain_key`.
    pub open spec fn active_of(&self, chain_key: ChainKey) -> Seq<AccountId> {
        if self.active_attestors@.contains_key(chain_key) {
            self.active_attestors@[chain_key]@
        } else {
            Seq::empty()
        }
    }

    /// Why attestation `a` is refused, if it is: the chain is supported, `a` is new,
    /// at least `threshold` active attestors signed it, its signature decodes, each
    /// signer has a usable key, at least `threshold` distinct keys signed, the
    /// aggregated signature verifies over its message, and it links to the finalized
    /// state.
    pub open spec fn attestation_verdict(&self, a: SignedAttestation, chain_supported: bool, threshold: u32) -> Result<
        (),
        Error,
    > {
        let ck = a.chain_key;
        if !chain_supported {
            Err(Error::ChainNotSupported)
        } else if is_duplicate(self.store.attestations@, self.store.last_checkpoint@.get(ck), a) {
            Err(Error::AttestationExists)
        } else if eligible_signers(self.active_of(ck), a.attestors@).len() < threshold {
            Err(Error::MajorityNotReached)
        } else if !bls_signature_decodes(a.signature@) {
            Err(Error::InvalidBlsSignature)
        } else {
            match gathered_keys(self.attestors@, self.retired_keys@, ck, a.attestors@) {
                Err(e) => Err(e),
                Ok(ks) => {
                    let d = distinct_keys(ks);
                    if d.len() < threshold {
                        Err(Error::InsufficientUniqueSigners)
                    } else if !bls_aggregate_verifies(a.signature@, a.message@, keys_bytes(d)) {
                        Err(Error::InvalidBlsSignature)
                    } else {
                        continuity_check(
                            self.store.attestations@,
                            self.store.last_checkpoint@.get(ck),
                            self.store.last_digest@.get(ck),
                            self.params_of(ck).genesis_block_number,
                            a,
                        )
                    }
                },
            }
        }
    }

    /// A pallet with no chain state: every chain has the parameters `defaults`.
    pub fn new(defaults: ChainParams, constants: PalletConstants) -> (p: Self)
        ensures
            p.wf(),
            p.defaults == defaults,
            p.constants == constants,
            p.params@ == Map::<ChainKey, ChainParams>::empty(),
            p.attestors@ == Map::<(ChainKey, AccountId), Attestor>::empty(),
            p.active_attestors@ == Map::<ChainKey, Vec<AccountId>>::empty(),
            p.ledgers@ == Map::<AccountId, AttestorLedger>::empty(),
            p.store.attestations@ == Map::<(ChainKey, Digest), SignedAttestation>::empty(),
            p.store.checkpoints@ == Map::<(ChainKey, u64), Digest>::empty(),
            p.store.last_checkpoint@ == Map::<ChainKey, AttestationCheckpoint>::empty(),
            p.store.last_digest@ == Map::<ChainKey, (u64, Digest)>::empty(),
            p.store.checkpoint_buckets@ == Map::<(ChainKey, u64, u64), ()>::empty(),
            p.store.checkpointing_queues@ == Map::<ChainKey, Vec<Digest>>::empty(),
            p.store.attestation_removal_queues@ == Map::<ChainKey, Vec<Digest>>::empty(),
            p.store.checkpoint_clearing@ == Map::<ChainKey, ()>::empty(),
            p.store.bucket_clearing@ == Map::<ChainKey, ()>::empty(),
            p.store.checkpoint_pruning_states@ == Map::<ChainKey, CheckpointPruningState>::empty(),
            p.attestors_count@ == Map::<ChainKey, u32>::empty(),
            p.invulnerables@ == Map::<(ChainKey, AccountId), ()>::empty(),
            p.authorized@ == Map::<(ChainKey, AccountId), ()>::empty(),
            p.retired_keys@ == Map::<(ChainKey, AccountId), RetiredAttestorBlsKeyEntry>::empty(),
            p.retired_by_stash@ == Map::<AccountId, Vec<(ChainKey, AccountId)>>::empty(),
            p.bls_key_owner@ == Map::<(ChainKey, BlsPublicKey), AccountId>::empty(),
            p.pending_intervals@ == Map::<ChainKey, u64>::empty(),
            p.pending_sample_sizes@ == Map::<ChainKey, u32>::empty(),
            p.pending_max_catchup@ == Map::<ChainKey, u32>::empty(),
    {
        let p = AttestationPallet {
            store: ChainStore::new(),
            defaults,
            params: KeyMap::new(),
            constants,
            attestors: KeyMap::new(),
            attestors_count: KeyMap::new(),
            active_attestors: KeyMap::new(),
            invulnerables: KeyMap::new(),
            authorized: KeyMap::new(),
            ledgers: KeyMap::new(),
            retired_keys: KeyMap::new(),
            retired_by_stash: KeyMap::new(),
            bls_key_owner: KeyMap::new(),
            pending_intervals: KeyMap::new(),
            pending_sample_sizes: KeyMap::new(),
            pending_max_catchup: KeyMap::new(),
        };
        proof {
            assert forall|s: AccountId| #[trigger] p.ledgers@.contains_key(s) implies p.ledgers@[s].balanced() by {}
        }
        p
    }

    /// The parameters of `chain_key`.
    pub fn params_for(&self, chain_key: ChainKey) -> (p: ChainParams)
        requires
            self.wf(),
        ensures
            p == self.params_of(chain_key),
    {
        match self.params.get(&chain_key) {
            Some(p) => *p,
            None => self.defaults,
        }
    }

    /// The active attestors of `chain_key`, copied out.
    pub fn active_for(&self, chain_key: ChainKey) -> (v: Vec<AccountId>)
        requires
            self.wf(),
        ensures
            v@ == self.active_of(chain_key),
    {
        match self.active_attestors.get(&chain_key) {
            Some(v) => copy_accounts(v),
            None => Vec::new(),
        }
    }

    /// The number of distinct signers of `ids` that are in the active set.
    pub fn count_eligible(&self, chain_key: ChainKey, ids: &Vec<AccountId>) -> (n: usize)
        requires
            self.wf(),
        ensures
            n == eligible_signers(self.active_of(chain_key), ids@).len(),
            eligible_signers(self.active_of(chain_key), ids@).finite(),
    {
        let active = self.active_for(chain_key);
        let ghost act = active@;
        let mut seen: Vec<AccountId> = Vec::new();
        let mut i: usize = 0;
        while i < ids.len()
            invariant
                act == active@,
                act == self.active_of(chain_key),
                i <= ids@.len(),
                seen@.no_duplicates(),
                seen@.to_set() == eligible_signers(act, ids@.take(i as int)),
            decreases ids@.len() - i,
        {
            let x = ids[i];
            proof {
                assert(ids@.take(i + 1) =~= ids@.take(i as int).push(x));
                ids@.take(i as int).lemma_push_to_set_commute(x);
            }
            if contains_account(&active, x) && !contains_account(&seen, x) {
                proof {
                    seen@.lemma_push_to_set_commute(x);
                }
                seen.push(x);
                proof {
                    assert(seen@.to_set() =~= eligible_signers(act, ids@.take(i + 1)));
                }
            } else {
                proof {
                    assert(seen@.to_set() =~= eligible_signers(act, ids@.take(i + 1)));
                }
            }
            i = i + 1;
        }
        proof {
            assert(ids@.take(ids@.len() as int) =~= ids@);
            seen@.unique_seq_to_set();
        }
        seen.len()
    }

    /// The keys of the attestors `ids`, in order.
    pub fn gather_attestor_public_keys(&self, chain_key: ChainKey, ids: &Vec<AccountId>) -> (r: Result<
        Vec<BlsPublicKey>,
        Error,
    >)
        requires
            self.wf(),
        ensures
            match r {
                Ok(ks) => gathered_keys(self.attestors@, self.retired_keys@, chain_key, ids@) == Ok::<
                    Seq<BlsPublicKey>,
                    Error,
                >(ks@),
                Err(e) => gathered_keys(self.attestors@, self.retired_keys@, chain_key, ids@) == Err::<
                    Seq<BlsPublicKey>,
                    Error,
                >(e),
            },
    {
        let mut ks: Vec<BlsPublicKey> = Vec::new();
        let mut i: usize = 0;
        while i < ids.len()
            invariant
                self.wf(),
                i <= ids@.len(),
                gathered_keys(self.attestors@, self.retired_keys@, chain_key, ids@.take(i as int)) == Ok::<
                    Seq<BlsPublicKey>,
                    Error,
                >(ks@),
            decreases ids@.len() - i,
        {
            let id = ids[i];
            proof {
                assert(ids@.take(i + 1).drop_last() =~= ids@.take(i as int));
            }
            let rec = self.attestors.get(&(chain_key, id));
            let key = match rec {
                Some(att) if att.bls_public_key.is_some() => att.bls_public_key.unwrap(),
                _ => match self.retired_keys.get(&(chain_key, id)) {
                    Some(e) => e.bls_public_key,
                    None => {
                        proof {
                            lemma_gather_error_sticks(self.attestors@, self.retired_keys@, chain_key, ids@, i + 1);
                        }
                        if rec.is_some() {
                            return Err(Error::AttestorWithInvalidPublicKey);
                        } else {
                            return Err(Error::InvalidAttestorFound);
                        }
                    },
                },
            };
            if !public_key_decodes(&key.to_bytes()) {
                proof {
                    lemma_gather_error_sticks(self.attestors@, self.retired_keys@, chain_key, ids@, i + 1);
                }
                return Err(Error::AttestorWithInvalidPublicKey);
            }
            ks.push(key);
            i = i + 1;
        }
        proof {
            assert(ids@.take(ids@.len() as int) =~= ids@);
        }
        Ok(ks)
    }

    /// Validates attestation `a`; `chain_supported` tells whether its chain is
    /// supported and `threshold` is the majority its chain's sample size asks for.
    pub fn validate_attestation(&self, a: &SignedAttestation, chain_supported: bool, threshold: u32) -> (r:
        Result<(), Error>)
        requires
            self.wf(),
        ensures
            r == self.attestation_verdict(*a, chain_supported, threshold),
    {
        let ck = a.chain_key;
        if !chain_supported {
            return Err(Error::ChainNotSupported);
        }
        if self.store.check_duplicate(a) {
            return Err(Error::AttestationExists);
        }
        let eligible = self.count_eligible(ck, &a.attestors);
        if (eligible as u64) < (threshold as u64) {
            return Err(Error::MajorityNotReached);
        }
        if !signature_decodes(&a.signature) {
            return Err(Error::InvalidBlsSignature);
        }
        let ks = match self.gather_attestor_public_keys(ck, &a.attestors) {
            Ok(ks) => ks,
            Err(e) => {
                return Err(e);
            },
        };
        let d = distinct_bls_keys(&ks);
        if (d.len() as u64) < (threshold as u64) {
            return Err(Error::InsufficientUniqueSigners);
        }
        if !aggregate_verifies(&a.signature, &a.message, &d) {
            return Err(Error::InvalidBlsSignature);
        }
        let genesis = self.params_for(ck).genesis_block_number;
        self.store.validate_attestation_continuity(a, genesis)
    }
}

/// Whether `store` holds a checkpoint of `chain_key`.
pub open spec fn has_checkpoints(store: ChainStore, chain_key: ChainKey) -> bool {
    exists|b: u64| #[trigger] store.checkpoints@.contains_key((chain_key, b))
}

/// The last attested block of a chain after attestation `a` of it is recorded: `a`'s,
/// unless a higher block was already attested.
pub open spec fn recorded_last_digest(
    last_digest: Map<ChainKey, (u64, Digest)>,
    a: SignedAttestation,
) -> Map<ChainKey, (u64, Digest)> {
    if last_digest.contains_key(a.chain_key) && a.header_number <= last_digest[a.chain_key].0 {
        last_digest
    } else {
        last_digest.insert(a.chain_key, (a.header_number, a.digest))
    }
}

/// `mid` is `pre` with attestation `a` stored under its digest and the chain's last
/// attested block updated.
pub open spec fn recorded(pre: ChainStore, mid: ChainStore, a: SignedAttestation) -> bool {
    &&& mid.wf()
    &&& mid.attestations@ == pre.attestations@.insert((a.chain_key, a.digest), a)
    &&& mid.last_digest@ == recorded_last_digest(pre.last_digest@, a)
    &&& mid.checkpoints == pre.checkpoints
    &&& mid.checkpoint_buckets == pre.checkpoint_buckets
    &&& mid.last_checkpoint == pre.last_checkpoint
    &&& mid.checkpointing_queues == pre.checkpointing_queues
    &&& mid.attestation_removal_queues == pre.attestation_removal_queues
    &&& mid.checkpoint_clearing == pre.checkpoint_clearing
    &&& mid.bucket_clearing == pre.bucket_clearing
    &&& mid.checkpoint_pruning_states == pre.checkpoint_pruning_states
}

/// `post` holds the same entries as `pre`.
pub open spec fn same_contents(pre: ChainStore, post: ChainStore) -> bool {
    &&& post.attestations@ == pre.attestations@
    &&& post.last_digest@ == pre.last_digest@
    &&& post.checkpoints == pre.checkpoints
    &&& post.checkpoint_buckets == pre.checkpoint_buckets
    &&& post.last_checkpoint == pre.last_checkpoint
    &&& post.checkpointing_queues == pre.checkpointing_queues
    &&& post.attestation_removal_queues == pre.attestation_removal_queues
    &&& post.checkpoint_clearing == pre.checkpoint_clearing
    &&& post.bucket_clearing == pre.bucket_clearing
    &&& post.checkpoint_pruning_states == pre.checkpoint_pruning_states
}

/// What committing the valid attestation `a` does to the store `pre` (becoming `post`)
/// and the events `e0` (becoming `e1`), returning `r`, under the chain parameters `p`.
pub open spec fn commit_effect(
    pre: ChainStore,
    post: ChainStore,
    e0: Seq<Event>,
    e1: Seq<Event>,
    a: SignedAttestation,
    p: ChainParams,
    r: Result<(), Error>,
) -> bool {
    let ck = a.chain_key;
    let d = a.digest;
    let attested = e0.push(Event::BlockAttested(ck, a.header_number, d));
    if !has_checkpoints(pre, ck) {
        if p.genesis_block_number != a.header_number {
            r == Err::<(), Error>(Error::InvalidAttestationBlockNumber) && post.unchanged_from(pre)
                && e1 == e0
        } else {
            let cp = AttestationCheckpoint { block_number: a.header_number, digest: d };
            &&& r is Ok
            &&& post.attestations@ == pre.attestations@.insert((ck, d), a)
            &&& post.last_digest@ == recorded_last_digest(pre.last_digest@, a)
            &&& post.checkpoints@ == pre.checkpoints@.insert((ck, a.header_number), d)
            &&& post.checkpoint_buckets@ == pre.checkpoint_buckets@.insert(
                (ck, bucket_index(a.header_number), a.header_number),
                (),
            )
            &&& post.last_checkpoint@ == pre.last_checkpoint@.insert(ck, cp)
            &&& post.removal_queue(ck) == pre.removal_queue(ck).push(d)
            &&& post.attestation_removal_queues@ == pre.attestation_removal_queues@.insert(
                ck,
                post.attestation_removal_queues@[ck],
            )
            &&& post.checkpointing_queues == pre.checkpointing_queues
            &&& post.checkpoint_clearing == pre.checkpoint_clearing
            &&& post.bucket_clearing == pre.bucket_clearing
            &&& post.checkpoint_pruning_states == pre.checkpoint_pruning_states
            &&& e1 == attested.push(Event::CheckpointReached(ck, cp))
        }
    } else {
        let atts1 = pre.attestations@.insert((ck, d), a);
        match catchup_plan(
            atts1,
            pre.last_checkpoint@.get(ck),
            ck,
            a,
            d,
            pre.checkpointing_queue(ck),
            p.attestation_interval,
            p.checkpoint_interval,
        ) {
            Err(e) => r == Err::<(), Error>(e) && same_contents(pre, post) && e1 == e0,
            Ok(cps) => exists|mid: ChainStore| {
                &&& recorded(pre, mid, a)
                &&& if cps.len() > 0 {
                    r is Ok && catchup_effect(
                        mid,
                        post,
                        attested,
                        e1,
                        ck,
                        a,
                        d,
                        p.attestation_interval,
                        p.checkpoint_interval,
                        p.retention,
                        Ok::<bool, Error>(true),
                    )
                } else {
                    exists|z: ChainStore, q1: Seq<Digest>, tr: Result<(), Error>|
                        {
                            &&& r is Ok
                            &&& checkpoint_effect(
                                mid,
                                z,
                                pre.checkpointing_queue(ck).push(d),
                                q1,
                                attested,
                                e1,
                                ck,
                                a.header_number,
                                p.attestation_interval,
                                p.checkpoint_interval,
                                p.retention,
                                tr,
                            )
                            &&& post.checkpointing_queue(ck) == q1
                            &&& post.checkpointing_queues@ == z.checkpointing_queues@.insert(
                                ck,
                                post.checkpointing_queues@[ck],
                            )
                            &&& post.attestations == z.attestations
                            &&& post.same_except_queue(z)
                        }
                }
            },
        }
    }
}

impl ChainStore {
    /// Every field but the checkpointing queues is that of `other`.
    pub open spec fn same_except_queue(&self, other: Self) -> bool {
        &&& self.checkpoints == other.checkpoints
        &&& self.checkpoint_buckets == other.checkpoint_buckets
        &&& self.last_checkpoint == other.last_checkpoint
        &&& self.last_digest == other.last_digest
        &&& self.attestation_removal_queues == other.attestation_removal_queues
        &&& self.checkpoint_clearing == other.checkpoint_clearing
        &&& self.bucket_clearing == other.bucket_clearing
        &&& self.checkpoint_pruning_states == other.checkpoint_pruning_states
    }
}

impl AttestationPallet {
    /// Every field but the store is that of `other`.
    pub open spec fn same_outside_store(&self, other: Self) -> bool {
        &&& self.defaults == other.defaults
        &&& self.params == other.params
        &&& self.constants == other.constants
        &&& self.attestors == other.attestors
        &&& self.attestors_count == other.attestors_count
        &&& self.active_attestors == other.active_attestors
        &&& self.invulnerables == other.invulnerables
        &&& self.authorized == other.authorized
        &&& self.ledgers == other.ledgers
        &&& self.retired_keys == other.retired_keys
        &&& self.retired_by_stash == other.retired_by_stash
        &&& self.bls_key_owner == other.bls_key_owner
        &&& self.pending_intervals == other.pending_intervals
        &&& self.pending_sample_sizes == other.pending_sample_sizes
        &&& self.pending_max_catchup == other.pending_max_catchup
    }

    /// What committing attestation `a` does: `pre` becomes `post`, the events `e0` become
    /// `e1`, and `r` is returned.
    pub open spec fn commit_attestation_effect(pre: AttestationPallet, post: AttestationPallet, e0: Seq<Event>, e1: Seq<Event>, a: SignedAttestation, chain_supported: bool, threshold: u32, r: Result<(), Error>) -> bool {
        &&& (post.same_outside_store(pre))
        &&& (match pre.attestation_verdict(a, chain_supported, threshold) {
                Err(e) => r == Err::<(), Error>(e) && post.store.unchanged_from(pre.store)
                    && e1 == e0,
                Ok(()) => commit_effect(
                    pre.store,
                    post.store,
                    e0,
                    e1,
                    a,
                    pre.params_of(a.chain_key),
                    r,
                ),
            })
    }

    /// Validates and stores attestation `a`, then checkpoints: the chain's first
    /// attestation becomes its first checkpoint; an attestation that catches up
    /// creates checkpoints from its continuity proof; otherwise it joins the
    /// checkpointing queue, which may yield a checkpoint (a failure to checkpoint
    /// keeps the attestation). On error nothing is kept.
    pub fn do_commit_attestation(
        &mut self,
        a: SignedAttestation,
        chain_supported: bool,
        threshold: u32,
        events: &mut Vec<Event>,
    ) -> (r: Result<(), Error>)
        requires
            old(self).wf(),
            catchup_terminates(
                a,
                old(self).params_of(a.chain_key).attestation_interval,
                old(self).params_of(a.chain_key).checkpoint_interval,
            ),
        ensures
            final(self).wf(),
            Self::commit_attestation_effect(*old(self), *final(self), old(events)@, final(events)@, a, chain_supported, threshold, r),
    {
        let ck = a.chain_key;
        let d = a.digest;
        let header = a.header_number;
        match self.validate_attestation(&a, chain_supported, threshold) {
            Err(e) => {
                return Err(e);
            },
            Ok(()) => {},
        }
        let p = self.params_for(ck);
        let first = self.store.checkpoints.keys_of_chain(ck).len() == 0;
        proof {
            let cks = old(self).store.checkpoints.chain_keys(ck);
            if first {
                assert forall|b: u64| !old(self).store.checkpoints@.contains_key((ck, b)) by {
                    if old(self).store.checkpoints@.contains_key((ck, b)) {
                        assert(cks.contains((ck, b)));
                        vstd::set_lib::lemma_set_empty_equivalency_len(cks);
                    }
                }
            } else {
                vstd::set_lib::lemma_set_empty_equivalency_len(cks);
                let k = cks.choose();
                assert(old(self).store.checkpoints@.contains_key((ck, k.1)));
            }
        }
        if first && p.genesis_block_number != header {
            return Err(Error::InvalidAttestationBlockNumber);
        }
        let old_ld: Option<(u64, Digest)> = match self.store.last_digest.get(&ck) {
            Some(v) => Some(*v),
            None => None,
        };
        let ghost pre = self.store;
        let ghost a_spec = a;
        self.store.attestations.insert((ck, d), a);
        let update = match old_ld {
            None => true,
            Some(v) => header > v.0,
        };
        if update {
            self.store.last_digest.insert(ck, (header, d));
        }
        proof {
            assert(self.store.last_digest@ =~= recorded_last_digest(pre.last_digest@, a_spec));
        }
        events.push(Event::BlockAttested(ck, header, d));
        if first {
            let cp = AttestationCheckpoint { block_number: header, digest: d };
            self.store.record_checkpoint(ck, cp, events);
            let mut rq = self.store.removal_queue_of(ck);
            rq.push(d);
            self.store.attestation_removal_queues.insert(ck, rq);
            return Ok(());
        }
        let ghost mid = self.store;
        proof {
            assert(recorded(pre, mid, a_spec));
        }
        match self.store.create_checkpoints_from_continuity_proof(
            ck,
            d,
            p.attestation_interval,
            p.checkpoint_interval,
            p.retention,
            events,
        ) {
            Err(e) => {
                let _ = self.store.attestations.remove(&(ck, d));
                if update {
                    match old_ld {
                        Some(v) => {
                            self.store.last_digest.insert(ck, v);
                        },
                        None => {
                            let _ = self.store.last_digest.remove(&ck);
                        },
                    }
                }
                let _ = events.pop();
                proof {
                    assert(self.store.attestations@ =~= pre.attestations@);
                    assert(self.store.last_digest@ =~= pre.last_digest@);
                    assert(events@ =~= old(events)@);
                }
                return Err(e);
            },
            Ok(true) => {
                return Ok(());
            },
            Ok(false) => {},
        }
        let ghost ev2 = events@;
        let mut queue = self.store.checkpointing_queue_of(ck);
        queue.push(d);
        let ghost q0 = queue@;
        let ghost z0 = self.store;
        let tr = self.store.try_make_checkpoint(
            &mut queue,
            ck,
            header,
            p.attestation_interval,
            p.checkpoint_interval,
            p.retention,
            events,
        );
        let ghost z = self.store;
        let ghost q1 = queue@;
        self.store.checkpointing_queues.insert(ck, queue);
        proof {
            assert(z0.checkpointing_queue(ck) == mid.checkpointing_queue(ck));
            assert(q0 == pre.checkpointing_queue(ck).push(d));
        }
        Ok(())
    }
}

impl AttestationPallet {
    /// What bootstrapping with attestation `a` does: `before` becomes `after`, the events `e0`
    /// become `e1`, and `r` is returned.
    pub open spec fn bootstrap_effect(before: AttestationPallet, after: AttestationPallet, e0: Seq<Event>, e1: Seq<Event>, a: SignedAttestation, chain_supported: bool, r: Result<(), Error>) -> bool {
        &&& (after.same_outside_store(before))
        &&& (({
                let pre = before.store;
                let post = after.store;
                let ck = a.chain_key;
                let d = a.digest;
                let h = a.header_number;
                let p = before.params_of(ck);
                let attested = e0.push(Event::BlockAttested(ck, h, d));
                if !chain_supported {
                    r == Err::<(), Error>(Error::ChainNotSupported) && post.unchanged_from(pre) && e1
                        == e0
                } else if !pre.last_digest@.contains_key(ck) {
                    if p.genesis_block_number != h {
                        r == Err::<(), Error>(Error::InvalidAttestationBlockNumber) && post.unchanged_from(pre)
                            && e1 == e0
                    } else {
                        let cp = AttestationCheckpoint { block_number: h, digest: d };
                        &&& r is Ok
                        &&& post.attestations@ == pre.attestations@.insert((ck, d), a)
                        &&& post.last_digest@ == pre.last_digest@.insert(ck, (h, d))
                        &&& post.checkpoints@ == pre.checkpoints@.insert((ck, h), d)
                        &&& post.checkpoint_buckets@ == pre.checkpoint_buckets@.insert((ck, bucket_index(h), h), ())
                        &&& post.last_checkpoint@ == pre.last_checkpoint@.insert(ck, cp)
                        &&& post.removal_queue(ck) == pre.removal_queue(ck).push(d)
                        &&& post.attestation_removal_queues@ == pre.attestation_removal_queues@.insert(
                            ck,
                            post.attestation_removal_queues@[ck],
                        )
                        &&& post.checkpointing_queues == pre.checkpointing_queues
                        &&& post.checkpoint_clearing == pre.checkpoint_clearing
                        &&& post.bucket_clearing == pre.bucket_clearing
                        &&& post.checkpoint_pruning_states == pre.checkpoint_pruning_states
                        &&& e1 == attested.push(Event::CheckpointReached(ck, cp))
                    }
                } else {
                    &&& r is Ok
                    &&& exists|mid: ChainStore, z: ChainStore, q1: Seq<Digest>, tr: Result<(), Error>|
                        {
                            &&& mid.wf()
                            &&& mid.attestations@ == pre.attestations@.insert((ck, d), a)
                            &&& mid.last_digest@ == pre.last_digest@.insert(ck, (h, d))
                            &&& same_except_recording(pre, mid)
                            &&& checkpoint_effect(
                                mid,
                                z,
                                pre.checkpointing_queue(ck).push(d),
                                q1,
                                attested,
                                e1,
                                ck,
                                h,
                                p.attestation_interval,
                                p.checkpoint_interval,
                                p.retention,
                                tr,
                            )
                            &&& post.checkpointing_queue(ck) == q1
                            &&& post.checkpointing_queues@ == z.checkpointing_queues@.insert(
                                ck,
                                post.checkpointing_queues@[ck],
                            )
                            &&& post.attestations == z.attestations
                            &&& post.same_except_queue(z)
                        }
                }
            }))
    }

    /// Stores an operator-supplied attestation without validating it: a chain's first
    /// attestation (no last digest yet) must be at its genesis block and becomes its
    /// first checkpoint; a later one joins the checkpointing queue, which may yield a
    /// checkpoint (a failure to checkpoint keeps the attestation). The chain's last
    /// digest becomes the attestation's. On error nothing is kept.
    pub fn do_bootstrap_chain(&mut self, a: SignedAttestation, chain_supported: bool, events: &mut Vec<Event>) -> (r:
        Result<(), Error>)
        requires
            old(self).wf(),
        ensures
            final(self).wf(),
            Self::bootstrap_effect(*old(self), *final(self), old(events)@, final(events)@, a, chain_supported, r),
    {
        let ck = a.chain_key;
        let d = a.digest;
        let header = a.header_number;
        if !chain_supported {
            return Err(Error::ChainNotSupported);
        }
        let p = self.params_for(ck);
        let first = !self.store.last_digest.contains_key(&ck);
        if first && p.genesis_block_number != header {
            return Err(Error::InvalidAttestationBlockNumber);
        }
        let ghost pre = self.store;
        self.store.attestations.insert((ck, d), a);
        self.store.last_digest.insert(ck, (header, d));
        events.push(Event::BlockAttested(ck, header, d));
        if first {
            let cp = AttestationCheckpoint { block_number: header, digest: d };
            self.store.record_checkpoint(ck, cp, events);
            let mut rq = self.store.removal_queue_of(ck);
            rq.push(d);
            self.store.attestation_removal_queues.insert(ck, rq);
            return Ok(());
        }
        let ghost mid = self.store;
        let mut queue = self.store.checkpointing_queue_of(ck);
        queue.push(d);
        let ghost q0 = queue@;
        let _ = self.store.try_make_checkpoint(
            &mut queue,
            ck,
            header,
            p.attestation_interval,
            p.checkpoint_interval,
            p.retention,
            events,
        );
        let ghost z = self.store;
        self.store.checkpointing_queues.insert(ck, queue);
        proof {
            assert(same_except_recording(pre, mid));
            assert(q0 == pre.checkpointing_queue(ck).push(d));
        }
        Ok(())
    }
}

/// `mid` differs from `pre` at most in its attestations and last digests.
pub open spec fn same_except_recording(pre: ChainStore, mid: ChainStore) -> bool {
    &&& mid.checkpoints == pre.checkpoints
    &&& mid.checkpoint_buckets == pre.checkpoint_buckets
    &&& mid.last_checkpoint == pre.last_checkpoint
    &&& mid.checkpointing_queues == pre.checkpointing_queues
    &&& mid.attestation_removal_queues == pre.attestation_removal_queues
    &&& mid.checkpoint_clearing == pre.checkpoint_clearing
    &&& mid.bucket_clearing == pre.bucket_clearing
    &&& mid.checkpoint_pruning_states == pre.checkpoint_pruning_states
}

/// Once gathering keys fails on a prefix of the signers, it fails with that error.
proof fn lemma_gather_error_sticks(
    attestors: Map<(ChainKey, AccountId), Attestor>,
    retired: Map<(ChainKey, AccountId), RetiredAttestorBlsKeyEntry>,
    chain_key: ChainKey,
    ids: Seq<AccountId>,
    k: int,
)
    requires
        0 <= k <= ids.len(),
        gathered_keys(attestors, retired, chain_key, ids.take(k)) is Err,
    ensures
        gathered_keys(attestors, retired, chain_key, ids) == gathered_keys(
            attestors,
            retired,
            chain_key,
            ids.take(k),
        ),
    decreases ids.len() - k,
{
    if k < ids.len() {
        assert(ids.take(k + 1).drop_last() =~= ids.take(k));
        lemma_gather_error_sticks(attestors, retired, chain_key, ids, k + 1);
    } else {
        assert(ids.take(k) =~= ids);
    }
}

/// The keys of `ks` without repetitions, each at its first position.
pub fn distinct_bls_keys(ks: &Vec<BlsPublicKey>) -> (d: Vec<BlsPublicKey>)
    ensures
        d@ == distinct_keys(ks@),
{
    let mut d: Vec<BlsPublicKey> = Vec::new();
    let mut i: usize = 0;
    while i < ks.len()
        invariant
            i <= ks@.len(),
            d@ == distinct_keys(ks@.take(i as int)),
        decreases ks@.len() - i,
    {
        let k = ks[i];
        proof {
            assert(ks@.take(i + 1).drop_last() =~= ks@.take(i as int));
        }
        if !contains_key_value(&d, &k) {
            d.push(k);
        }
        i = i + 1;
    }
    proof {
        assert(ks@.take(ks@.len() as int) =~= ks@);
    }
    d
}

/// Whether `v` holds `k`.
pub fn contains_key_value(v: &Vec<BlsPublicKey>, k: &BlsPublicKey) -> (b: bool)
    ensures
        b == v@.contains(*k),
{
    let mut i: usize = 0;
    while i < v.len()
        invariant
            i <= v@.len(),
            forall|j: int| 0 <= j < i ==> v@[j] != *k,
        decreases v@.len() - i,
    {
        if v[i] == *k {
            return true;
        }
        i = i + 1;
    }
    false
}

/// Whether `v` holds `x`.
pub fn contains_account(v: &Vec<AccountId>, x: AccountId) -> (b: bool)
    ensures
        b == v@.contains(x),
{
    let mut i: usize = 0;
    while i < v.len()
        invariant
            i <= v@.len(),
            forall|j: int| 0 <= j < i ==> v@[j] != x,
        decreases v@.len() - i,
    {
        if v[i] == x {
            return true;
        }
        i = i + 1;
    }
    false
}

/// A copy of a sequence of accounts.
pub fn copy_accounts(v: &Vec<AccountId>) -> (r: Vec<AccountId>)
    ensures
        r@ == v@,
{
    let mut r: Vec<AccountId> = Vec::new();
    let mut i: usize = 0;
    while i < v.len()
        invariant
            i <= v@.len(),
            r@ == v@.take(i as int),
        decreases v@.len() - i,
    {
        r.push(v[i]);
        proof {
            assert(v@.take(i + 1) =~= v@.take(i as int).push(v@[i as int]));
        }
        i = i + 1;
    }
    proof {
        assert(v@.take(v@.len() as int) =~= v@);
    }
    r
}

} // verus!
