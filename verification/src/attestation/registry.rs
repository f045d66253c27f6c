use vstd::prelude::*;

use crate::attestation::model::{
    Attestor, AttestorElectionPolicy, AttestorStatus, Error, Event, RetiredAttestorBlsKeyEntry,
    RuntimeAction,
};
use crate::ledger::{
    pending_chunks, released_sum, sat_sub, unbond_outcome, AttestorLedger, UnlockChunk,
};
use crate::attestation::pallet::{copy_accounts, AttestationPallet, ChainParams};
use crate::bls::{
    bls_possession_verifies, bls_public_key_decodes, bls_signature_decodes, possession_verifies,
    public_key_decodes, signature_decodes,
};
use crate::keymap::KeyMap;
use crate::types::{AccountId, Balance, BlsPublicKey, ChainKey, ChainScoped, KeyEq};

verus! {

/// The position of the first occurrence of `x` in `s`.
pub open spec fn first_position<A>(s: Seq<A>, x: A) -> Option<int>
    decreases s.len(),
{
    if s.len() == 0 {
        None
    } else {
        match first_position(s.drop_last(), x) {
            Some(i) => Some(i),
            None => if s.last() == x {
                Some(s.len() - 1)
            } else {
                None
            },
        }
    }
}

/// `s` with its first `x` replaced by its last element, and the last element dropped.
pub open spec fn swap_removed<A>(s: Seq<A>, x: A) -> Seq<A> {
    match first_position(s, x) {
        Some(i) => s.update(i, s.last()).drop_last(),
        None => s,
    }
}

/// The position of the first occurrence of `x` in `v`.
pub fn position_of<T: KeyEq + Copy>(v: &Vec<T>, x: &T) -> (r: Option<usize>)
    ensures
        match r {
            Some(i) => first_position(v@, *x) == Some(i as int) && i < v@.len() && v@[i as int] == *x,
            None => first_position(v@, *x) is None,
        },
{
    let mut i: usize = 0;
    while i < v.len()
        invariant
            i <= v@.len(),
            first_position(v@.take(i as int), *x) is None,
        decreases v@.len() - i,
    {
        proof {
            assert(v@.take(i + 1).drop_last() =~= v@.take(i as int));
        }
        if v[i].key_eq(x) {
            proof {
                lemma_first_position_prefix(v@, *x, i + 1);
            }
            return Some(i);
        }
        i = i + 1;
    }
    proof {
        assert(v@.take(v@.len() as int) =~= v@);
    }
    None
}

/// A prefix that holds `x` places it where the whole sequence does.
pub proof fn lemma_first_position_prefix<A>(s: Seq<A>, x: A, k: int)
    requires
        0 <= k <= s.len(),
        first_position(s.take(k), x) is Some,
    ensures
        first_position(s, x) == first_position(s.take(k), x),
    decreases s.len() - k,
{
    if k < s.len() {
        assert(s.take(k + 1).drop_last() =~= s.take(k));
        lemma_first_position_prefix(s, x, k + 1);
    } else {
        assert(s.take(k) =~= s);
    }
}

/// Removes the first `x` of `v` by swapping the last element into its place.
pub fn swap_remove_value<T: KeyEq + Copy>(v: &mut Vec<T>, x: &T)
    ensures
        final(v)@ == swap_removed(old(v)@, *x),
{
    match position_of(v, x) {
        Some(i) => {
            let _ = v.swap_remove(i);
        },
        None => {},
    }
}

impl AttestationPallet {
    /// The number of registered attestors of `chain_key`.
    pub open spec fn count_of(&self, chain_key: ChainKey) -> u32 {
        if self.attestors_count@.contains_key(chain_key) {
            self.attestors_count@[chain_key]
        } else {
            0
        }
    }

    /// The retired keys pending for `stash`.
    pub open spec fn retired_pairs_of(&self, stash: AccountId) -> Seq<(ChainKey, AccountId)> {
        if self.retired_by_stash@.contains_key(stash) {
            self.retired_by_stash@[stash]@
        } else {
            Seq::empty()
        }
    }

    /// Everything but the active sets is that of `other`.
    pub open spec fn same_except_active(&self, other: Self) -> bool {
        &&& self.store == other.store
        &&& self.defaults == other.defaults
        &&& self.params == other.params
        &&& self.constants == other.constants
        &&& self.attestors == other.attestors
        &&& self.attestors_count == other.attestors_count
        &&& self.invulnerables == other.invulnerables
        &&& self.authorized == other.authorized
        &&& self.ledgers == other.ledgers
        &&& self.retired_keys == other.retired_keys
        &&& self.retired_by_stash == other.retired_by_stash
        &&& self.bls_key_owner == other.bls_key_owner
        &&& self.pending_intervals == other.pending_intervals
        &&& self.pending_sample_sizes == other.pending_sample_sizes
        &&& self.pending_max_catchup == other.pending_max_catchup
    }

    /// The number of registered attestors of `chain_key`.
    pub fn attestors_count_of(&self, chain_key: ChainKey) -> (n: u32)
        requires
            self.wf(),
        ensures
            n == self.count_of(chain_key),
    {
        match self.attestors_count.get(&chain_key) {
            Some(n) => *n,
            None => 0,
        }
    }

    /// Drops `attestor_id` from the active set of `chain_key` (the last member takes
    /// its place).
    pub fn remove_active_attestor_from_set(&mut self, chain_key: ChainKey, attestor_id: AccountId)
        requires
            old(self).wf(),
        ensures
            final(self).wf(),
            final(self).same_except_active(*old(self)),
            final(self).active_of(chain_key) == swap_removed(old(self).active_of(chain_key), attestor_id),
            forall|c: ChainKey| c != chain_key ==> #[trigger] final(self).active_of(c) == old(self).active_of(c),
    {
        match self.active_attestors.get(&chain_key) {
            Some(v) => {
                let mut w = crate::attestation::pallet::copy_accounts(v);
                swap_remove_value(&mut w, &attestor_id);
                self.active_attestors.insert(chain_key, w);
            },
            None => {
                proof {
                    assert(swap_removed(Seq::<AccountId>::empty(), attestor_id) =~= Seq::<AccountId>::empty());
                }
            },
        }
    }

    /// Number of members of the active set of `chain_key`.
    pub fn working_set_size(&self, chain_key: ChainKey) -> (n: usize)
        requires
            self.wf(),
        ensures
            n == self.active_of(chain_key).len(),
    {
        match self.active_attestors.get(&chain_key) {
            Some(v) => v.len(),
            None => 0,
        }
    }

    /// Whether `address` is in the active set of `chain_key`.
    pub fn is_attestor(&self, chain_key: ChainKey, address: AccountId) -> (b: bool)
        requires
            self.wf(),
        ensures
            b == self.active_of(chain_key).contains(address),
    {
        match self.active_attestors.get(&chain_key) {
            Some(v) => crate::attestation::pallet::contains_account(v, address),
            None => false,
        }
    }

    /// Whether `address` is not in the active set of `chain_key`.
    pub fn address_is_not_attestor(&self, chain_key: ChainKey, address: AccountId) -> (b: bool)
        requires
            self.wf(),
        ensures
            b == !self.active_of(chain_key).contains(address),
    {
        !self.is_attestor(chain_key, address)
    }

    /// The status of attestor `address` of `chain_key`, if registered.
    pub fn attestor_status(&self, chain_key: ChainKey, address: AccountId) -> (r: Option<AttestorStatus>)
        requires
            self.wf(),
        ensures
            r == (if self.attestors@.contains_key((chain_key, address)) {
                Some(self.attestors@[(chain_key, address)].status)
            } else {
                None
            }),
    {
        match self.attestors.get(&(chain_key, address)) {
            Some(a) => Some(a.status),
            None => None,
        }
    }

    /// Whether `address` is a registered attestor of `chain_key`.
    pub fn attestor_is_registered(&self, chain_key: ChainKey, address: AccountId) -> (b: bool)
        requires
            self.wf(),
        ensures
            b == self.attestors@.contains_key((chain_key, address)),
    {
        self.attestors.contains_key(&(chain_key, address))
    }

    /// The BLS key of attestor `address` of `chain_key`, if any.
    pub fn attestor_bls_pubkey(&self, chain_key: ChainKey, address: AccountId) -> (r: Option<BlsPublicKey>)
        requires
            self.wf(),
        ensures
            r == (if self.attestors@.contains_key((chain_key, address)) {
                self.attestors@[(chain_key, address)].bls_public_key
            } else {
                None
            }),
    {
        match self.attestors.get(&(chain_key, address)) {
            Some(a) => a.bls_public_key,
            None => None,
        }
    }

    /// Whether `chain_key` can take one more attestor.
    pub fn attestor_list_has_space(&self, chain_key: ChainKey) -> (b: bool)
        requires
            self.wf(),
        ensures
            b == (self.count_of(chain_key) < self.params_of(chain_key).max_attestors),
    {
        self.attestors_count_of(chain_key) < self.params_for(chain_key).max_attestors
    }

    /// Whether `address` is an invulnerable of `chain_key`.
    pub fn address_is_invulnerable(&self, chain_key: ChainKey, address: AccountId) -> (b: bool)
        requires
            self.wf(),
        ensures
            b == self.invulnerables@.contains_key((chain_key, address)),
    {
        self.invulnerables.contains_key(&(chain_key, address))
    }
}

/// `post` is `pre` without the retired key of controller `id` of `chain_key`, its
/// entry in its stash's pending list, and the key's owner record when `id` holds it;
/// `post` is `pre` when there is no such key.
pub open spec fn retired_entry_cleared(pre: AttestationPallet, post: AttestationPallet, chain_key: ChainKey, id: AccountId) -> bool {
    if !pre.retired_keys@.contains_key((chain_key, id)) {
        post == pre
    } else {
        let e = pre.retired_keys@[(chain_key, id)];
        &&& post.retired_keys@ == pre.retired_keys@.remove((chain_key, id))
        &&& post.retired_pairs_of(e.stash) == swap_removed(pre.retired_pairs_of(e.stash), (chain_key, id))
        &&& forall|s: AccountId| s != e.stash ==> #[trigger] post.retired_pairs_of(s) == pre.retired_pairs_of(s)
        &&& post.bls_key_owner@ == if pre.bls_key_owner@.get((chain_key, e.bls_public_key)) == Some(id) {
            pre.bls_key_owner@.remove((chain_key, e.bls_public_key))
        } else {
            pre.bls_key_owner@
        }
    }
}

impl AttestationPallet {
    /// The store, parameters and pending updates are those of `other`.
    pub open spec fn same_config_and_store(&self, other: Self) -> bool {
        &&& self.store == other.store
        &&& self.defaults == other.defaults
        &&& self.params == other.params
        &&& self.constants == other.constants
        &&& self.pending_intervals == other.pending_intervals
        &&& self.pending_sample_sizes == other.pending_sample_sizes
        &&& self.pending_max_catchup == other.pending_max_catchup
    }

    /// `attestors` with the status of attestor `id` of `chain_key` (if registered) set
    /// to `status`.
    pub open spec fn with_status(
        attestors: Map<(ChainKey, AccountId), Attestor>,
        chain_key: ChainKey,
        id: AccountId,
        status: AttestorStatus,
    ) -> Map<(ChainKey, AccountId), Attestor> {
        if attestors.contains_key((chain_key, id)) {
            let a = attestors[(chain_key, id)];
            attestors.insert(
                (chain_key, id),
                Attestor { bls_public_key: a.bls_public_key, status, stash: a.stash },
            )
        } else {
            attestors
        }
    }

    /// Sets attestor `id` of `chain_key` (if registered) to `status`.
    pub(crate) fn set_status(&mut self, chain_key: ChainKey, id: AccountId, status: AttestorStatus)
        requires
            old(self).wf(),
        ensures
            final(self).wf(),
            final(self).attestors@ == Self::with_status(old(self).attestors@, chain_key, id, status),
            final(self).same_config_and_store(*old(self)),
            final(self).attestors_count == old(self).attestors_count,
            final(self).active_attestors == old(self).active_attestors,
            final(self).invulnerables == old(self).invulnerables,
            final(self).authorized == old(self).authorized,
            final(self).ledgers == old(self).ledgers,
            final(self).retired_keys == old(self).retired_keys,
            final(self).retired_by_stash == old(self).retired_by_stash,
            final(self).bls_key_owner == old(self).bls_key_owner,
    {
        match self.attestors.get(&(chain_key, id)) {
            Some(a) => {
                let b = Attestor { bls_public_key: a.bls_public_key, status, stash: a.stash };
                self.attestors.insert((chain_key, id), b);
            },
            None => {},
        }
    }

    /// Voluntary chill of an active attestor: it stays in the current committee and
    /// becomes idle at the next election.
    pub fn schedule_voluntary_chill(&mut self, chain_key: ChainKey, attestor_id: AccountId)
        requires
            old(self).wf(),
        ensures
            final(self).wf(),
            final(self).attestors@ == Self::with_status(
                old(self).attestors@,
                chain_key,
                attestor_id,
                AttestorStatus::Leaving,
            ),
            final(self).same_config_and_store(*old(self)),
            final(self).active_attestors == old(self).active_attestors,
            final(self).ledgers == old(self).ledgers,
    {
        self.set_status(chain_key, attestor_id, AttestorStatus::Leaving);
    }

    /// Sets attestor `attestor_id` of `chain_key` idle at once, drops it from the active
    /// set and emits `AttestorChilled`.
    pub fn do_chill_attestor_immediate(&mut self, chain_key: ChainKey, attestor_id: AccountId, events: &mut Vec<Event>)
        requires
            old(self).wf(),
        ensures
            final(self).wf(),
            final(self).attestors@ == Self::with_status(
                old(self).attestors@,
                chain_key,
                attestor_id,
                AttestorStatus::Idle,
            ),
            final(self).active_of(chain_key) == swap_removed(old(self).active_of(chain_key), attestor_id),
            forall|c: ChainKey| c != chain_key ==> #[trigger] final(self).active_of(c) == old(self).active_of(c),
            final(self).same_config_and_store(*old(self)),
            final(self).attestors_count == old(self).attestors_count,
            final(self).invulnerables == old(self).invulnerables,
            final(self).authorized == old(self).authorized,
            final(self).ledgers == old(self).ledgers,
            final(self).retired_keys == old(self).retired_keys,
            final(self).retired_by_stash == old(self).retired_by_stash,
            final(self).bls_key_owner == old(self).bls_key_owner,
            final(events)@ == old(events)@.push(Event::AttestorChilled(chain_key, attestor_id)),
    {
        self.set_status(chain_key, attestor_id, AttestorStatus::Idle);
        self.remove_active_attestor_from_set(chain_key, attestor_id);
        events.push(Event::AttestorChilled(chain_key, attestor_id));
    }

    /// Number of invulnerables of `chain_key`.
    pub open spec fn invulnerable_count(&self, chain_key: ChainKey) -> nat {
        self.invulnerables.chain_keys(chain_key).len()
    }

    /// Whether `chain_key` can take one more invulnerable.
    pub fn vulnerable_list_has_space(&self, chain_key: ChainKey) -> (b: bool)
        requires
            self.wf(),
        ensures
            b == (self.invulnerable_count(chain_key) < self.params_of(chain_key).max_invulnerables),
    {
        let ks = self.invulnerables.keys_of_chain(chain_key);
        (ks.len() as u64) < (self.params_for(chain_key).max_invulnerables as u64)
    }

    /// Makes `address` an invulnerable of `chain_key`; refused when the list is full.
    pub fn try_insert_invulnerable_and_emit_event(
        &mut self,
        chain_key: ChainKey,
        address: AccountId,
        events: &mut Vec<Event>,
    ) -> (r: Result<(), Error>)
        requires
            old(self).wf(),
        ensures
            final(self).wf(),
            old(self).invulnerable_count(chain_key) >= old(self).params_of(chain_key).max_invulnerables
                ==> r == Err::<(), Error>(Error::InvulnerableListFull) && *final(self) == *old(self)
                && final(events)@ == old(events)@,
            old(self).invulnerable_count(chain_key) < old(self).params_of(chain_key).max_invulnerables
                ==> r is Ok && final(self).invulnerables@ == old(self).invulnerables@.insert(
                (chain_key, address),
                (),
            ) && final(events)@ == old(events)@.push(Event::InvulnerableRegistered(chain_key, address)),
            final(self).same_config_and_store(*old(self)),
            final(self).attestors == old(self).attestors,
            final(self).active_attestors == old(self).active_attestors,
            final(self).ledgers == old(self).ledgers,
    {
        if !self.vulnerable_list_has_space(chain_key) {
            return Err(Error::InvulnerableListFull);
        }
        self.invulnerables.insert((chain_key, address), ());
        events.push(Event::InvulnerableRegistered(chain_key, address));
        Ok(())
    }

    /// Removes `address` from the invulnerables of `chain_key`.
    pub fn remove_invulnerable_and_emit_event(&mut self, chain_key: ChainKey, address: AccountId, events: &mut Vec<Event>)
        requires
            old(self).wf(),
        ensures
            final(self).wf(),
            final(self).invulnerables@ == old(self).invulnerables@.remove((chain_key, address)),
            final(events)@ == old(events)@.push(Event::InvulnerableUnregistered(chain_key, address)),
            final(self).same_config_and_store(*old(self)),
            final(self).attestors == old(self).attestors,
            final(self).active_attestors == old(self).active_attestors,
            final(self).ledgers == old(self).ledgers,
    {
        let _ = self.invulnerables.remove(&(chain_key, address));
        events.push(Event::InvulnerableUnregistered(chain_key, address));
    }

    /// Drops the pair `(chain_key, attestor_id)` from the retired keys pending for `stash`.
    fn remove_stash_retired_index_pair(&mut self, stash: AccountId, chain_key: ChainKey, attestor_id: AccountId)
        requires
            old(self).wf(),
        ensures
            final(self).wf(),
            final(self).retired_pairs_of(stash) == swap_removed(
                old(self).retired_pairs_of(stash),
                (chain_key, attestor_id),
            ),
            forall|s: AccountId| s != stash ==> #[trigger] final(self).retired_pairs_of(s) == old(self).retired_pairs_of(s),
            final(self).same_config_and_store(*old(self)),
            final(self).attestors == old(self).attestors,
            final(self).attestors_count == old(self).attestors_count,
            final(self).active_attestors == old(self).active_attestors,
            final(self).invulnerables == old(self).invulnerables,
            final(self).authorized == old(self).authorized,
            final(self).ledgers == old(self).ledgers,
            final(self).retired_keys == old(self).retired_keys,
            final(self).bls_key_owner == old(self).bls_key_owner,
    {
        match self.retired_by_stash.get(&stash) {
            Some(v) => {
                let mut w = copy_pairs(v);
                swap_remove_value(&mut w, &(chain_key, attestor_id));
                self.retired_by_stash.insert(stash, w);
            },
            None => {
                proof {
                    assert(swap_removed(Seq::<(ChainKey, AccountId)>::empty(), (chain_key, attestor_id))
                        =~= Seq::<(ChainKey, AccountId)>::empty());
                }
            },
        }
    }

    /// Drops the retired key of controller `attestor_id` of `chain_key`, so that a new
    /// registration can use the slot; the key is released if this controller holds it.
    pub fn clear_retired_bls_entry_for_controller(&mut self, chain_key: ChainKey, attestor_id: AccountId)
        requires
            old(self).wf(),
        ensures
            final(self).wf(),
            retired_entry_cleared(*old(self), *final(self), chain_key, attestor_id),
            final(self).same_config_and_store(*old(self)),
            final(self).attestors == old(self).attestors,
            final(self).attestors_count == old(self).attestors_count,
            final(self).active_attestors == old(self).active_attestors,
            final(self).invulnerables == old(self).invulnerables,
            final(self).authorized == old(self).authorized,
            final(self).ledgers == old(self).ledgers,
    {
        if !self.retired_keys.contains_key(&(chain_key, attestor_id)) {
            return;
        }
        let e = match self.retired_keys.remove(&(chain_key, attestor_id)) {
            Some(e) => e,
            None => {
                return;
            },
        };
        self.remove_stash_retired_index_pair(e.stash, chain_key, attestor_id);
        let ghost mid = *self;
        assert(self.retired_keys@ == old(self).retired_keys@.remove((chain_key, attestor_id)));
        let owned = match self.bls_key_owner.get(&(chain_key, e.bls_public_key)) {
            Some(o) => *o == attestor_id,
            None => false,
        };
        if owned {
            let _ = self.bls_key_owner.remove(&(chain_key, e.bls_public_key));
        }
        proof {
            assert forall|s: AccountId| s != e.stash implies #[trigger] self.retired_pairs_of(s)
                == old(self).retired_pairs_of(s) by {
                assert(self.retired_pairs_of(s) == mid.retired_pairs_of(s));
            }
        }
    }
}

/// The amount that `bond_extra` adds to a ledger holding `total` of a stash whose
/// native free balance is `free`: at most `bond`, at most what the stash holds beyond
/// its bond; an error when the sums do not fit.
pub open spec fn extra_bond(total: Balance, active: Balance, bond: Balance, free: Balance) -> Result<Balance, Error> {
    if free < total {
        Err(Error::Overflow)
    } else {
        let extra = if bond <= free - total {
            bond
        } else {
            (free - total) as u128
        };
        if total + extra > u128::MAX || active + extra > u128::MAX {
            Err(Error::Overflow)
        } else {
            Ok(extra)
        }
    }
}

/// `post` is `pre` with the ledger of `stash` replaced by one with the given totals
/// and the same stash and chunks.
pub open spec fn ledger_rebonded(
    pre: Map<AccountId, AttestorLedger>,
    post: Map<AccountId, AttestorLedger>,
    stash: AccountId,
    total: Balance,
    active: Balance,
) -> bool {
    &&& post.dom() == pre.dom()
    &&& forall|s: AccountId| s != stash && #[trigger] pre.contains_key(s) ==> post[s] == pre[s]
    &&& post[stash].stash == pre[stash].stash
    &&& post[stash].total_staked == total
    &&& post[stash].active == active
    &&& post[stash].unlocking@ == pre[stash].unlocking@
}

/// The bond-asset transfer that brings a ledger total from `old_total` to `new_total`.
pub open spec fn pool_sync(stash: AccountId, pool: AccountId, old_total: Balance, new_total: Balance) -> Seq<RuntimeAction> {
    if new_total > old_total {
        seq![RuntimeAction::BondTransfer { from: stash, to: pool, amount: (new_total - old_total) as u128 }]
    } else if new_total < old_total {
        seq![RuntimeAction::BondTransfer { from: pool, to: stash, amount: (old_total - new_total) as u128 }]
    } else {
        Seq::empty()
    }
}

/// The bond-asset transfer that brings a ledger total from `old_total` to `new_total`.
pub fn pool_sync_action(stash: AccountId, pool: AccountId, old_total: Balance, new_total: Balance, actions: &mut Vec<RuntimeAction>)
    ensures
        final(actions)@ == old(actions)@ + pool_sync(stash, pool, old_total, new_total),
{
    if new_total > old_total {
        actions.push(RuntimeAction::BondTransfer { from: stash, to: pool, amount: new_total - old_total });
    } else if new_total < old_total {
        actions.push(RuntimeAction::BondTransfer { from: pool, to: stash, amount: old_total - new_total });
    }
    assert(actions@ =~= old(actions)@ + pool_sync(stash, pool, old_total, new_total));
}

impl AttestationPallet {
    /// Everything but the ledgers is that of `other`.
    pub open spec fn same_except_ledgers(&self, other: Self) -> bool {
        &&& self.same_config_and_store(other)
        &&& self.attestors == other.attestors
        &&& self.attestors_count == other.attestors_count
        &&& self.active_attestors == other.active_attestors
        &&& self.invulnerables == other.invulnerables
        &&& self.authorized == other.authorized
        &&& self.retired_keys == other.retired_keys
        &&& self.retired_by_stash == other.retired_by_stash
        &&& self.bls_key_owner == other.bls_key_owner
    }

    /// Bonds more of the stash's native free balance `stash_free` (up to the chain's
    /// minimum bond) to its ledger; returns the bond-asset transfer to the pool.
    pub fn bond_extra(
        &mut self,
        chain_key: ChainKey,
        stash: AccountId,
        stash_free: Balance,
        events: &mut Vec<Event>,
    ) -> (r: Result<Vec<RuntimeAction>, Error>)
        requires
            old(self).wf(),
        ensures
            final(self).wf(),
            final(self).same_except_ledgers(*old(self)),
            !old(self).ledgers@.contains_key(stash) ==> r == Err::<Vec<RuntimeAction>, Error>(Error::NotStash)
                && *final(self) == *old(self) && final(events)@ == old(events)@,
            old(self).ledgers@.contains_key(stash) ==> {
                let l = old(self).ledgers@[stash];
                match extra_bond(l.total_staked, l.active, old(self).params_of(chain_key).min_bond, stash_free) {
                    Err(e) => r matches Err(e2) && e2 == e && *final(self) == *old(self) && final(events)@ == old(events)@,
                    Ok(extra) => r matches Ok(acts) && acts@ == pool_sync(
                        stash,
                        old(self).constants.bond_pool,
                        l.total_staked,
                        (l.total_staked + extra) as u128,
                    ) && ledger_rebonded(
                        old(self).ledgers@,
                        final(self).ledgers@,
                        stash,
                        (l.total_staked + extra) as u128,
                        (l.active + extra) as u128,
                    ) && final(events)@ == old(events)@.push(Event::Bonded { stash, amount: extra }),
                }
            },
    {
        let bond = self.params_for(chain_key).min_bond;
        let (total, active) = match self.ledgers.get(&stash) {
            Some(l) => (l.total_staked, l.active),
            None => {
                return Err(Error::NotStash);
            },
        };
        let room = match stash_free.checked_sub(total) {
            Some(x) => x,
            None => {
                return Err(Error::Overflow);
            },
        };
        let extra = if bond <= room {
            bond
        } else {
            room
        };
        if total.checked_add(extra).is_none() || active.checked_add(extra).is_none() {
            return Err(Error::Overflow);
        }
        let mut l = match self.ledgers.remove(&stash) {
            Some(l) => l,
            None => {
                return Err(Error::NotStash);
            },
        };
        let ghost l0 = l;
        let _ = l.bond_more(extra);
        let new_total = l.total_staked;
        self.ledgers.insert(stash, l);
        proof {
            assert(self.ledgers@ =~= old(self).ledgers@.insert(stash, l));
            assert forall|s: AccountId| #[trigger] self.ledgers@.contains_key(s) implies self.ledgers@[s].balanced() by {
                if s != stash {
                    assert(old(self).ledgers@.contains_key(s));
                }
            }
        }
        let mut acts: Vec<RuntimeAction> = Vec::new();
        pool_sync_action(stash, self.constants.bond_pool, total, new_total, &mut acts);
        events.push(Event::Bonded { stash, amount: extra });
        Ok(acts)
    }
}

impl AttestationPallet {
    /// Why registering `attestor_id` for `stash` on `chain_key` is refused, if it is;
    /// `bondable` is what the stash has free to bond (beyond locks and the minimum
    /// balance) and `stash_free` its native free balance.
    pub open spec fn insert_verdict(
        &self,
        chain_key: ChainKey,
        stash: AccountId,
        attestor_id: AccountId,
        chain_supported: bool,
        bondable: Balance,
        stash_free: Balance,
    ) -> Result<(), Error> {
        let p = self.params_of(chain_key);
        if !chain_supported {
            Err(Error::ChainNotSupported)
        } else if p.election_policy == AttestorElectionPolicy::AuthorizedOnly
            && !self.authorized@.contains_key((chain_key, attestor_id)) {
            Err(Error::NotPreAuthorizedToRegister)
        } else if self.attestors@.contains_key((chain_key, attestor_id)) {
            Err(Error::AlreadyAttestor)
        } else if self.count_of(chain_key) >= p.max_attestors {
            Err(Error::AttestorListFull)
        } else if attestor_id == stash {
            Err(Error::InvalidAttestorAccount)
        } else if bondable < p.min_bond {
            Err(Error::InsufficientBalance)
        } else if self.ledgers@.contains_key(stash) {
            let l = self.ledgers@[stash];
            match extra_bond(l.total_staked, l.active, p.min_bond, stash_free) {
                Err(e) => Err(e),
                Ok(_) => Ok(()),
            }
        } else {
            Ok(())
        }
    }

    /// What registering attestor `attestor_id` of `chain_key` for `stash` does: `pre`
    /// becomes `post`, the events `e0` become `e1`, and `r` is returned.
    pub open spec fn registration_effect(pre: AttestationPallet, post: AttestationPallet, e0: Seq<Event>, e1: Seq<Event>, chain_key: ChainKey, stash: AccountId, attestor_id: AccountId, chain_supported: bool, bondable: Balance, stash_free: Balance, r: Result<Vec<RuntimeAction>, Error>) -> bool {
        match pre.insert_verdict(chain_key, stash, attestor_id, chain_supported, bondable, stash_free) {
                Err(e) => r matches Err(e2) && e2 == e && post == pre && e1 == e0,
                Ok(()) => {
                    let p = pre.params_of(chain_key);
                    let fund = RuntimeAction::NativeTransfer {
                        from: stash,
                        to: attestor_id,
                        amount: pre.constants.attestor_funding,
                    };
                    let registered = Event::AttestorRegistered(chain_key, attestor_id);
                    &&& r is Ok
                    &&& exists|mid: AttestationPallet| {
                        &&& retired_entry_cleared(pre, mid, chain_key, attestor_id)
                        &&& post.retired_keys == mid.retired_keys
                        &&& post.retired_by_stash == mid.retired_by_stash
                        &&& post.bls_key_owner == mid.bls_key_owner
                    }
                    &&& post.attestors@ == pre.attestors@.insert(
                        (chain_key, attestor_id),
                        Attestor { bls_public_key: None, status: AttestorStatus::Idle, stash },
                    )
                    &&& post.attestors_count@ == pre.attestors_count@.insert(
                        chain_key,
                        if pre.count_of(chain_key) < u32::MAX {
                            (pre.count_of(chain_key) + 1) as u32
                        } else {
                            u32::MAX
                        },
                    )
                    &&& post.same_config_and_store(pre)
                    &&& post.active_attestors == pre.active_attestors
                    &&& post.invulnerables == pre.invulnerables
                    &&& post.authorized == pre.authorized
                    &&& if pre.ledgers@.contains_key(stash) {
                        let l = pre.ledgers@[stash];
                        let extra = extra_bond(l.total_staked, l.active, p.min_bond, stash_free)->Ok_0;
                        &&& r->Ok_0@ == seq![fund] + pool_sync(
                            stash,
                            pre.constants.bond_pool,
                            l.total_staked,
                            (l.total_staked + extra) as u128,
                        )
                        &&& ledger_rebonded(
                            pre.ledgers@,
                            post.ledgers@,
                            stash,
                            (l.total_staked + extra) as u128,
                            (l.active + extra) as u128,
                        )
                        &&& e1 == e0.push(Event::Bonded { stash, amount: extra }).push(
                            registered,
                        )
                    } else {
                        &&& r->Ok_0@ == seq![fund] + pool_sync(stash, pre.constants.bond_pool, 0, p.min_bond)
                            + seq![RuntimeAction::IncConsumers(stash)]
                        &&& post.ledgers@.dom() == pre.ledgers@.dom().insert(stash)
                        &&& forall|s: AccountId| s != stash && #[trigger] pre.ledgers@.contains_key(s)
                            ==> post.ledgers@[s] == pre.ledgers@[s]
                        &&& post.ledgers@[stash].stash == stash
                        &&& post.ledgers@[stash].total_staked == p.min_bond
                        &&& post.ledgers@[stash].active == p.min_bond
                        &&& post.ledgers@[stash].unlocking@ == Seq::<UnlockChunk>::empty()
                        &&& e1 == e0.push(Event::Bonded { stash, amount: p.min_bond }).push(
                            registered,
                        )
                    }
                },
            }
    }

    /// Registers `attestor_id` as an idle attestor of `chain_key` funded by `stash`,
    /// and bonds the chain's minimum bond: a new ledger for a stash without one, else
    /// `bond_extra`. Returns the balance effects to perform: the attestor's funding,
    /// then the bond transfers. On error nothing changes.
    pub fn try_insert_attestor_and_emit_event(
        &mut self,
        chain_key: ChainKey,
        stash: AccountId,
        attestor_id: AccountId,
        chain_supported: bool,
        bondable: Balance,
        stash_free: Balance,
        events: &mut Vec<Event>,
    ) -> (r: Result<Vec<RuntimeAction>, Error>)
        requires
            old(self).wf(),
        ensures
            final(self).wf(),
            Self::registration_effect(*old(self), *final(self), old(events)@, final(events)@, chain_key, stash, attestor_id, chain_supported, bondable, stash_free, r),
    {
        let p = self.params_for(chain_key);
        if !chain_supported {
            return Err(Error::ChainNotSupported);
        }
        if p.election_policy == AttestorElectionPolicy::AuthorizedOnly && !self.authorized.contains_key(
            &(chain_key, attestor_id),
        ) {
            return Err(Error::NotPreAuthorizedToRegister);
        }
        if self.attestors.contains_key(&(chain_key, attestor_id)) {
            return Err(Error::AlreadyAttestor);
        }
        if !self.attestor_list_has_space(chain_key) {
            return Err(Error::AttestorListFull);
        }
        if attestor_id == stash {
            return Err(Error::InvalidAttestorAccount);
        }
        if bondable < p.min_bond {
            return Err(Error::InsufficientBalance);
        }
        let has_ledger = self.ledgers.contains_key(&stash);
        if has_ledger {
            let (total, active) = match self.ledgers.get(&stash) {
                Some(l) => (l.total_staked, l.active),
                None => (0, 0),
            };
            match stash_free.checked_sub(total) {
                None => {
                    return Err(Error::Overflow);
                },
                Some(room) => {
                    let extra = if p.min_bond <= room {
                        p.min_bond
                    } else {
                        room
                    };
                    if total.checked_add(extra).is_none() || active.checked_add(extra).is_none() {
                        return Err(Error::Overflow);
                    }
                },
            }
        }
        self.clear_retired_bls_entry_for_controller(chain_key, attestor_id);
        let ghost mid = *self;
        self.attestors.insert(
            (chain_key, attestor_id),
            Attestor { bls_public_key: None, status: AttestorStatus::Idle, stash },
        );
        let c = self.attestors_count_of(chain_key);
        self.attestors_count.insert(chain_key, c.saturating_add(1));
        let mut acts: Vec<RuntimeAction> = Vec::new();
        acts.push(
            RuntimeAction::NativeTransfer { from: stash, to: attestor_id, amount: self.constants.attestor_funding },
        );
        if has_ledger {
            match self.bond_extra(chain_key, stash, stash_free, events) {
                Ok(mut more) => {
                    acts.append(&mut more);
                },
                Err(e) => {
                    return Err(e);
                },
            }
        } else {
            let l = AttestorLedger::new(stash, p.min_bond);
            self.ledgers.insert(stash, l);
            proof {
                assert forall|s: AccountId| #[trigger] self.ledgers@.contains_key(s) implies self.ledgers@[s].balanced() by {
                    if s != stash {
                        assert(mid.ledgers@.contains_key(s));
                    }
                }
            }
            pool_sync_action(stash, self.constants.bond_pool, 0, p.min_bond, &mut acts);
            acts.push(RuntimeAction::IncConsumers(stash));
            events.push(Event::Bonded { stash, amount: p.min_bond });
        }
        events.push(Event::AttestorRegistered(chain_key, attestor_id));
        proof {
            assert(mid.retired_keys == self.retired_keys);
            assert(retired_entry_cleared(*old(self), mid, chain_key, attestor_id));
            assert(self.attestors_count@ == old(self).attestors_count@.insert(
                        chain_key,
                        if old(self).count_of(chain_key) < u32::MAX {
                            (old(self).count_of(chain_key) + 1) as u32
                        } else {
                            u32::MAX
                        },
                    ));
            if has_ledger {
                let l = old(self).ledgers@[stash];
                let extra = extra_bond(l.total_staked, l.active, p.min_bond, stash_free)->Ok_0;
                assert(acts@ == seq![RuntimeAction::NativeTransfer { from: stash, to: attestor_id, amount: old(self).constants.attestor_funding }] + pool_sync(
                            stash,
                            old(self).constants.bond_pool,
                            l.total_staked,
                            (l.total_staked + extra) as u128,
                        ));
                assert(ledger_rebonded(
                            old(self).ledgers@,
                            self.ledgers@,
                            stash,
                            (l.total_staked + extra) as u128,
                            (l.active + extra) as u128,
                        ));
                assert(events@ == old(events)@.push(Event::Bonded { stash, amount: extra }).push(
                            Event::AttestorRegistered(chain_key, attestor_id),
                        ));
            } else {
                assert(acts@ == seq![RuntimeAction::NativeTransfer { from: stash, to: attestor_id, amount: old(self).constants.attestor_funding }] + pool_sync(stash, old(self).constants.bond_pool, 0, p.min_bond)
                            + seq![RuntimeAction::IncConsumers(stash)]);
                assert(self.ledgers@.dom() == old(self).ledgers@.dom().insert(stash));
                assert(events@ == old(events)@.push(Event::Bonded { stash, amount: p.min_bond }).push(
                            Event::AttestorRegistered(chain_key, attestor_id),
                        ));
            }
        }
        Ok(acts)
    }
}

impl AttestationPallet {
    /// The era at which a bond unbonded in `current_era` is released.
    pub open spec fn purge_era(&self, current_era: u32) -> u32 {
        if current_era + self.constants.bonding_duration <= u32::MAX {
            (current_era + self.constants.bonding_duration) as u32
        } else {
            u32::MAX
        }
    }

    /// Why unregistering attestor `attestor_id` of `chain_key` by `stash` is refused, if
    /// it is.
    pub open spec fn remove_verdict(&self, chain_key: ChainKey, stash: AccountId, attestor_id: AccountId) -> Result<
        (),
        Error,
    > {
        if !self.attestors@.contains_key((chain_key, attestor_id)) {
            Err(Error::AddressNotAttestor)
        } else if self.attestors@[(chain_key, attestor_id)].stash != stash {
            Err(Error::NotYourAttestor)
        } else if self.attestors@[(chain_key, attestor_id)].status != AttestorStatus::Idle {
            Err(Error::AttestorNotIdle)
        } else if !self.ledgers@.contains_key(stash) {
            Err(Error::NotStash)
        } else if self.ledgers@[stash].unlocking@.len() >= self.constants.max_unlocking_chunks {
            Err(Error::NoMoreChunks)
        } else if self.attestors@[(chain_key, attestor_id)].bls_public_key is Some
            && self.retired_pairs_of(stash).len() >= self.constants.max_retired_per_stash {
            Err(Error::RetiredAttestorPendingFull)
        } else {
            Ok(())
        }
    }

    /// What remove_attestor_and_emit_event does: `pre` becomes `post`, the events `e0` become `e1`,
    /// and `r` is returned.
    pub open spec fn removal_effect(pre: AttestationPallet, post: AttestationPallet, e0: Seq<Event>, e1: Seq<Event>, chain_key: ChainKey, stash: AccountId, attestor_id: AccountId, current_era: u32, r: Result<(), Error>) -> bool {
        match pre.remove_verdict(chain_key, stash, attestor_id) {
            Err(e) => r == Err::<(), Error>(e) && post == pre && e1 == e0,
            Ok(()) => {
                let a = pre.attestors@[(chain_key, attestor_id)];
                let l = pre.ledgers@[stash];
                let era = pre.purge_era(current_era);
                let out = unbond_outcome(
                    l,
                    pre.params_of(chain_key).min_bond,
                    pre.constants.bond_existential_deposit,
                    era,
                );
                let unbonded = if out.0 != 0 {
                    seq![Event::Unbonded { stash, amount: out.0 }]
                } else {
                    Seq::empty()
                };
                &&& r is Ok
                &&& post.ledgers@.dom() == pre.ledgers@.dom()
                &&& forall|s: AccountId| s != stash && #[trigger] pre.ledgers@.contains_key(s)
                    ==> post.ledgers@[s] == pre.ledgers@[s]
                &&& post.ledgers@[stash].stash == l.stash
                &&& post.ledgers@[stash].total_staked == l.total_staked
                &&& post.ledgers@[stash].active == out.1
                &&& post.ledgers@[stash].unlocking@ == out.2
                &&& match a.bls_public_key {
                    Some(k) => {
                        &&& post.retired_keys@ == pre.retired_keys@.insert(
                            (chain_key, attestor_id),
                            RetiredAttestorBlsKeyEntry { bls_public_key: k, purge_at_era: era, stash },
                        )
                        &&& post.retired_pairs_of(stash) == pre.retired_pairs_of(stash).push(
                            (chain_key, attestor_id),
                        )
                        &&& forall|s: AccountId| s != stash ==> #[trigger] post.retired_pairs_of(s)
                            == pre.retired_pairs_of(s)
                    },
                    None => post.retired_keys == pre.retired_keys
                        && post.retired_by_stash == pre.retired_by_stash,
                }
                &&& post.active_of(chain_key) == swap_removed(pre.active_of(chain_key), attestor_id)
                &&& forall|c: ChainKey| c != chain_key ==> #[trigger] post.active_of(c) == pre.active_of(c)
                &&& post.attestors@ == pre.attestors@.remove((chain_key, attestor_id))
                &&& post.attestors_count@ == pre.attestors_count@.insert(
                    chain_key,
                    if pre.count_of(chain_key) > 0 {
                        (pre.count_of(chain_key) - 1) as u32
                    } else {
                        0
                    },
                )
                &&& post.same_config_and_store(pre)
                &&& post.invulnerables == pre.invulnerables
                &&& post.authorized == pre.authorized
                &&& post.bls_key_owner == pre.bls_key_owner
                &&& e1 == e0 + unbonded + seq![Event::AttestorUnregistered(chain_key, attestor_id)]
            },
    }
    }

    /// Unregisters the idle attestor `attestor_id` of `chain_key` owned by `stash`:
    /// unbonds the chain's minimum bond (a chunk released at `current_era` plus the
    /// bonding duration), keeps its BLS key as retired until then, drops it from the
    /// active set and the registry. On error nothing changes.
    pub fn remove_attestor_and_emit_event(
        &mut self,
        chain_key: ChainKey,
        stash: AccountId,
        attestor_id: AccountId,
        current_era: u32,
        events: &mut Vec<Event>,
    ) -> (r: Result<(), Error>)
        requires
            old(self).wf(),
        ensures
            final(self).wf(),
            Self::removal_effect(*old(self), *final(self), old(events)@, final(events)@, chain_key, stash, attestor_id, current_era, r),
    {
        let a = match self.attestors.get(&(chain_key, attestor_id)) {
            Some(a) => *a,
            None => {
                return Err(Error::AddressNotAttestor);
            },
        };
        if a.stash != stash {
            return Err(Error::NotYourAttestor);
        }
        if a.status != AttestorStatus::Idle {
            return Err(Error::AttestorNotIdle);
        }
        let bond = self.params_for(chain_key).min_bond;
        let chunks = match self.ledgers.get(&stash) {
            Some(l) => l.unlocking.len(),
            None => {
                return Err(Error::NotStash);
            },
        };
        if chunks as u64 >= self.constants.max_unlocking_chunks as u64 {
            return Err(Error::NoMoreChunks);
        }
        let pending = match self.retired_by_stash.get(&stash) {
            Some(v) => v.len(),
            None => 0,
        };
        if a.bls_public_key.is_some() && pending as u64 >= self.constants.max_retired_per_stash as u64 {
            return Err(Error::RetiredAttestorPendingFull);
        }
        let era = current_era.saturating_add(self.constants.bonding_duration);
        let mut l = match self.ledgers.remove(&stash) {
            Some(l) => l,
            None => {
                return Err(Error::NotStash);
            },
        };
        let ghost l0 = l;
        proof {
            assert(old(self).ledgers@.contains_key(stash));
        }
        let value = match l.unbond(
            bond,
            self.constants.bond_existential_deposit,
            era,
            self.constants.max_unlocking_chunks as usize,
        ) {
            Ok(v) => v,
            Err(_) => 0,
        };
        self.ledgers.insert(stash, l);
        proof {
            assert(self.ledgers@ =~= old(self).ledgers@.insert(stash, l));
            assert forall|s: AccountId| #[trigger] self.ledgers@.contains_key(s) implies self.ledgers@[s].balanced() by {
                if s != stash {
                    assert(old(self).ledgers@.contains_key(s));
                }
            }
        }
        if value != 0 {
            events.push(Event::Unbonded { stash, amount: value });
        }
        match a.bls_public_key {
            Some(k) => {
                self.retired_keys.insert(
                    (chain_key, attestor_id),
                    RetiredAttestorBlsKeyEntry { bls_public_key: k, purge_at_era: era, stash },
                );
                let mut w = match self.retired_by_stash.get(&stash) {
                    Some(v) => copy_pairs(v),
                    None => Vec::new(),
                };
                w.push((chain_key, attestor_id));
                self.retired_by_stash.insert(stash, w);
            },
            None => {},
        }
        self.remove_active_attestor_from_set(chain_key, attestor_id);
        let ghost mid2 = *self;
        let _ = self.attestors.remove(&(chain_key, attestor_id));
        let c = self.attestors_count_of(chain_key);
        self.attestors_count.insert(chain_key, c.saturating_sub(1));
        events.push(Event::AttestorUnregistered(chain_key, attestor_id));
        proof {
            let unb = if value != 0 {
                seq![Event::Unbonded { stash, amount: value }]
            } else {
                Seq::empty()
            };
            assert(events@ =~= old(events)@ + unb + seq![Event::AttestorUnregistered(chain_key, attestor_id)]);
            assert forall|c: ChainKey| c != chain_key implies #[trigger] self.active_of(c) == old(self).active_of(c) by {
                assert(self.active_of(c) == mid2.active_of(c));
            }
        }
        Ok(())
    }
}

impl AttestationPallet {
    /// Why attestor `attestor_id` of `chain_key` cannot start attesting with `key`
    /// and the proof of possession `proof`, if it cannot.
    pub open spec fn attest_verdict(&self, chain_key: ChainKey, attestor_id: AccountId, key: BlsPublicKey, proof: Seq<u8>) -> Result<
        (),
        Error,
    > {
        if !self.attestors@.contains_key((chain_key, attestor_id)) {
            Err(Error::AddressNotAttestor)
        } else if self.attestors@[(chain_key, attestor_id)].bls_public_key is Some
            && self.attestors@[(chain_key, attestor_id)].status != AttestorStatus::Idle {
            Err(Error::AttestorNotIdle)
        } else if !bls_public_key_decodes(key.spec_bytes()) {
            Err(Error::InvalidBlsPublicKey)
        } else if !bls_signature_decodes(proof) {
            Err(Error::InvalidBlsSignature)
        } else if !bls_possession_verifies(key.spec_bytes(), proof) {
            Err(Error::InvalidProofOfPossession)
        } else if self.bls_key_owner@.contains_key((chain_key, key))
            && self.bls_key_owner@[(chain_key, key)] != attestor_id {
            Err(Error::BlsKeyAlreadyRegistered)
        } else {
            Ok(())
        }
    }

    /// What starting to attest with `key` does: `pre` becomes `post`, the events `e0`
    /// become `e1`, and `r` is returned.
    pub open spec fn attesting_effect(pre: AttestationPallet, post: AttestationPallet, e0: Seq<Event>, e1: Seq<Event>, chain_key: ChainKey, attestor_id: AccountId, key: BlsPublicKey, proof: Seq<u8>, r: Result<(), Error>) -> bool {
        match pre.attest_verdict(chain_key, attestor_id, key, proof) {
                Err(e) => r == Err::<(), Error>(e) && post == pre && e1 == e0,
                Ok(()) => {
                    let a = pre.attestors@[(chain_key, attestor_id)];
                    let released = match a.bls_public_key {
                        Some(k) => if k != key {
                            pre.bls_key_owner@.remove((chain_key, k))
                        } else {
                            pre.bls_key_owner@
                        },
                        None => pre.bls_key_owner@,
                    };
                    &&& r is Ok
                    &&& post.bls_key_owner@ == released.insert((chain_key, key), attestor_id)
                    &&& post.attestors@ == pre.attestors@.insert(
                        (chain_key, attestor_id),
                        Attestor { bls_public_key: Some(key), status: AttestorStatus::Waiting, stash: a.stash },
                    )
                    &&& post.same_config_and_store(pre)
                    &&& post.attestors_count == pre.attestors_count
                    &&& post.active_attestors == pre.active_attestors
                    &&& post.invulnerables == pre.invulnerables
                    &&& post.authorized == pre.authorized
                    &&& post.ledgers == pre.ledgers
                    &&& post.retired_keys == pre.retired_keys
                    &&& post.retired_by_stash == pre.retired_by_stash
                    &&& e1 == e0.push(Event::AttestorActivated(chain_key, attestor_id, key))
                },
            }
    }

    /// Attestor `attestor_id` of `chain_key` registers the BLS key `key`, proven by
    /// `proof`, and waits for the next election. The key is unique per chain; a
    /// different previous key of the attestor is released. On error nothing changes.
    pub fn start_attesting(
        &mut self,
        chain_key: ChainKey,
        attestor_id: AccountId,
        key: BlsPublicKey,
        proof: &Vec<u8>,
        events: &mut Vec<Event>,
    ) -> (r: Result<(), Error>)
        requires
            old(self).wf(),
        ensures
            final(self).wf(),
            Self::attesting_effect(*old(self), *final(self), old(events)@, final(events)@, chain_key, attestor_id, key, proof@, r),
    {
        let a = match self.attestors.get(&(chain_key, attestor_id)) {
            Some(a) => *a,
            None => {
                return Err(Error::AddressNotAttestor);
            },
        };
        if a.bls_public_key.is_some() && a.status != AttestorStatus::Idle {
            return Err(Error::AttestorNotIdle);
        }
        if !public_key_decodes(&key.to_bytes()) {
            return Err(Error::InvalidBlsPublicKey);
        }
        if !signature_decodes(proof) {
            return Err(Error::InvalidBlsSignature);
        }
        if !possession_verifies(&key, proof) {
            return Err(Error::InvalidProofOfPossession);
        }
        match self.bls_key_owner.get(&(chain_key, key)) {
            Some(o) => {
                if *o != attestor_id {
                    return Err(Error::BlsKeyAlreadyRegistered);
                }
            },
            None => {},
        }
        match a.bls_public_key {
            Some(k) => {
                if k != key {
                    let _ = self.bls_key_owner.remove(&(chain_key, k));
                }
            },
            None => {},
        }
        self.bls_key_owner.insert((chain_key, key), attestor_id);
        self.attestors.insert(
            (chain_key, attestor_id),
            Attestor { bls_public_key: Some(key), status: AttestorStatus::Waiting, stash: a.stash },
        );
        events.push(Event::AttestorActivated(chain_key, attestor_id, key));
        Ok(())
    }
}

/// The retired keys, key owners and still-pending pairs after purging, at era `era`,
/// the pending pairs `pairs` of `stash`: a pair whose key is released by `era` loses
/// its retired key (and its owner record when it still holds the key); a pair whose
/// key belongs to another stash or is gone is dropped; the others stay pending.
pub open spec fn purge_fold(
    retired: Map<(ChainKey, AccountId), RetiredAttestorBlsKeyEntry>,
    owner: Map<(ChainKey, BlsPublicKey), AccountId>,
    stash: AccountId,
    era: u32,
    pairs: Seq<(ChainKey, AccountId)>,
) -> (Map<(ChainKey, AccountId), RetiredAttestorBlsKeyEntry>, Map<(ChainKey, BlsPublicKey), AccountId>, Seq<
    (ChainKey, AccountId),
>)
    decreases pairs.len(),
{
    if pairs.len() == 0 {
        (retired, owner, Seq::empty())
    } else {
        let prev = purge_fold(retired, owner, stash, era, pairs.drop_last());
        let r = prev.0;
        let o = prev.1;
        let k = prev.2;
        let p = pairs.last();
        if !r.contains_key(p) || r[p].stash != stash {
            (r, o, k)
        } else if era >= r[p].purge_at_era {
            let e = r[p];
            (
                r.remove(p),
                if o.get((p.0, e.bls_public_key)) == Some(p.1) {
                    o.remove((p.0, e.bls_public_key))
                } else {
                    o
                },
                k,
            )
        } else {
            (r, o, k.push(p))
        }
    }
}

/// `post` is `pre` after purging, at era `era`, the retired keys pending for `stash`.
pub open spec fn retired_keys_purged(pre: AttestationPallet, post: AttestationPallet, stash: AccountId, era: u32) -> bool {
    if pre.retired_pairs_of(stash).len() == 0 {
        post == pre
    } else {
        let f = purge_fold(pre.retired_keys@, pre.bls_key_owner@, stash, era, pre.retired_pairs_of(stash));
        &&& post.retired_keys@ == f.0
        &&& post.bls_key_owner@ == f.1
        &&& post.retired_pairs_of(stash) == f.2
        &&& forall|s: AccountId| s != stash ==> #[trigger] post.retired_pairs_of(s) == pre.retired_pairs_of(s)
    }
}

impl AttestationPallet {
    /// Releases the retired keys of `stash` whose unbonding ended by `current_era`.
    pub fn purge_retired_bls_keys_for_stash(&mut self, stash: AccountId, current_era: u32)
        requires
            old(self).wf(),
        ensures
            final(self).wf(),
            old(self).retired_pairs_of(stash).len() == 0 ==> *final(self) == *old(self),
            old(self).retired_pairs_of(stash).len() > 0 ==> {
                let f = purge_fold(
                    old(self).retired_keys@,
                    old(self).bls_key_owner@,
                    stash,
                    current_era,
                    old(self).retired_pairs_of(stash),
                );
                &&& final(self).retired_keys@ == f.0
                &&& final(self).bls_key_owner@ == f.1
                &&& final(self).retired_pairs_of(stash) == f.2
                &&& forall|s: AccountId| s != stash ==> #[trigger] final(self).retired_pairs_of(s) == old(self).retired_pairs_of(s)
            },
            final(self).same_config_and_store(*old(self)),
            final(self).attestors == old(self).attestors,
            final(self).attestors_count == old(self).attestors_count,
            final(self).active_attestors == old(self).active_attestors,
            final(self).invulnerables == old(self).invulnerables,
            final(self).authorized == old(self).authorized,
            final(self).ledgers == old(self).ledgers,
    {
        let pairs = match self.retired_by_stash.get(&stash) {
            Some(v) => copy_pairs(v),
            None => Vec::new(),
        };
        if pairs.len() == 0 {
            return;
        }
        let ghost r0 = self.retired_keys@;
        let ghost o0 = self.bls_key_owner@;
        let mut kept: Vec<(ChainKey, AccountId)> = Vec::new();
        let mut i: usize = 0;
        while i < pairs.len()
            invariant
                self.wf(),
                i <= pairs@.len(),
                pairs@ == old(self).retired_pairs_of(stash),
                r0 == old(self).retired_keys@,
                o0 == old(self).bls_key_owner@,
                ({
                    let f = purge_fold(r0, o0, stash, current_era, pairs@.take(i as int));
                    &&& self.retired_keys@ == f.0
                    &&& self.bls_key_owner@ == f.1
                    &&& kept@ == f.2
                }),
                self.same_config_and_store(*old(self)),
                self.attestors == old(self).attestors,
                self.attestors_count == old(self).attestors_count,
                self.active_attestors == old(self).active_attestors,
                self.invulnerables == old(self).invulnerables,
                self.authorized == old(self).authorized,
                self.ledgers == old(self).ledgers,
                self.retired_by_stash == old(self).retired_by_stash,
            decreases pairs@.len() - i,
        {
            let p = pairs[i];
            proof {
                assert(pairs@.take(i + 1).drop_last() =~= pairs@.take(i as int));
            }
            match self.retired_keys.get(&p) {
                None => {},
                Some(e) => {
                    let e = *e;
                    if e.stash != stash {
                    } else if current_era >= e.purge_at_era {
                        let owned = match self.bls_key_owner.get(&(p.0, e.bls_public_key)) {
                            Some(o) => *o == p.1,
                            None => false,
                        };
                        if owned {
                            let _ = self.bls_key_owner.remove(&(p.0, e.bls_public_key));
                        }
                        let _ = self.retired_keys.remove(&p);
                    } else {
                        kept.push(p);
                    }
                },
            }
            i = i + 1;
        }
        proof {
            assert(pairs@.take(pairs@.len() as int) =~= pairs@);
        }
        let ghost mid = *self;
        self.retired_by_stash.insert(stash, kept);
        proof {
            assert forall|s: AccountId| s != stash implies #[trigger] self.retired_pairs_of(s) == old(self).retired_pairs_of(s) by {
                assert(mid.retired_pairs_of(s) == old(self).retired_pairs_of(s));
            }
        }
    }

    /// What `do_withdraw_unbonded` finds: the stash's ledger with the chunks due at
    /// `current_era` released (none at era zero).
    pub open spec fn withdrawn_totals(l: AttestorLedger, current_era: u32) -> (Balance, Seq<UnlockChunk>) {
        if current_era > 0 {
            (
                sat_sub(l.total_staked as int, released_sum(l.unlocking@, current_era)) as u128,
                pending_chunks(l.unlocking@, current_era),
            )
        } else {
            (l.total_staked, l.unlocking@)
        }
    }

    /// What withdrawing the unbonded funds of `stash` does: `pre` becomes `post`, the
    /// events `e0` become `e1`, and `r` is returned.
    pub open spec fn withdrawal_effect(pre: AttestationPallet, post: AttestationPallet, e0: Seq<Event>, e1: Seq<Event>, stash: AccountId, current_era: u32, existential_deposit: Balance, r: Result<Vec<RuntimeAction>, Error>) -> bool {
        &&& (!pre.ledgers@.contains_key(stash) ==> r == Err::<Vec<RuntimeAction>, Error>(Error::NotStash)
                && post == pre && e1 == e0)
        &&& (pre.ledgers@.contains_key(stash) ==> {
                let l = pre.ledgers@[stash];
                let w = Self::withdrawn_totals(l, current_era);
                let pool = pre.constants.bond_pool;
                let killed = w.1.len() == 0 && (l.active < existential_deposit || l.active == 0);
                let withdrawn = if w.0 < l.total_staked {
                    seq![Event::Withdrawn { stash, amount: (l.total_staked - w.0) as u128 }]
                } else {
                    Seq::empty()
                };
                &&& r is Ok
                &&& exists|mid: AttestationPallet| {
                    &&& #[trigger] retired_keys_purged(pre, mid, stash, current_era)
                    &&& mid.retired_keys == post.retired_keys
                    &&& mid.bls_key_owner == post.bls_key_owner
                    &&& mid.retired_by_stash == post.retired_by_stash
                }
                &&& if killed {
                    &&& post.ledgers@ == pre.ledgers@.remove(stash)
                    &&& r->Ok_0@ == (if l.total_staked != 0 {
                        seq![RuntimeAction::BondTransfer { from: pool, to: stash, amount: l.total_staked }]
                    } else {
                        Seq::empty()
                    }) + seq![RuntimeAction::DecConsumers(stash)]
                } else {
                    &&& post.ledgers@.dom() == pre.ledgers@.dom()
                    &&& forall|s: AccountId| s != stash && #[trigger] pre.ledgers@.contains_key(s)
                        ==> post.ledgers@[s] == pre.ledgers@[s]
                    &&& post.ledgers@[stash].stash == l.stash
                    &&& post.ledgers@[stash].active == l.active
                    &&& post.ledgers@[stash].total_staked == w.0
                    &&& post.ledgers@[stash].unlocking@ == w.1
                    &&& r->Ok_0@ == pool_sync(stash, pool, l.total_staked, w.0)
                }
                &&& e1 == e0 + withdrawn
                &&& post.same_config_and_store(pre)
                &&& post.attestors == pre.attestors
                &&& post.attestors_count == pre.attestors_count
                &&& post.active_attestors == pre.active_attestors
                &&& post.invulnerables == pre.invulnerables
                &&& post.authorized == pre.authorized
            })
    }

    /// Releases the unlock chunks of `stash` that are due at `current_era`, and its
    /// retired keys whose unbonding ended. A ledger left with no chunks and an active
    /// stake below `existential_deposit` (or none) is removed and its whole bond
    /// returned; otherwise the released amount is returned. Returns the balance
    /// effects to perform.
    pub fn do_withdraw_unbonded(
        &mut self,
        stash: AccountId,
        current_era: u32,
        existential_deposit: Balance,
        events: &mut Vec<Event>,
    ) -> (r: Result<Vec<RuntimeAction>, Error>)
        requires
            old(self).wf(),
        ensures
            final(self).wf(),
            Self::withdrawal_effect(*old(self), *final(self), old(events)@, final(events)@, stash, current_era, existential_deposit, r),
    {
        if !self.ledgers.contains_key(&stash) {
            return Err(Error::NotStash);
        }
        self.purge_retired_bls_keys_for_stash(stash, current_era);
        let ghost mid = *self;
        let l = match self.ledgers.remove(&stash) {
            Some(l) => l,
            None => {
                return Err(Error::NotStash);
            },
        };
        proof {
            assert(old(self).ledgers@.contains_key(stash));
        }
        let old_total = l.total_staked;
        let active = l.active;
        let l2 = if current_era > 0 {
            l.consolidate_unlocked(current_era)
        } else {
            l
        };
        let new_total = l2.total_staked;
        let mut acts: Vec<RuntimeAction> = Vec::new();
        if l2.unlocking.len() == 0 && (active < existential_deposit || active == 0) {
            if old_total != 0 {
                acts.push(RuntimeAction::BondTransfer { from: self.constants.bond_pool, to: stash, amount: old_total });
            }
            acts.push(RuntimeAction::DecConsumers(stash));
            proof {
                assert forall|s: AccountId| #[trigger] self.ledgers@.contains_key(s) implies self.ledgers@[s].balanced() by {
                    assert(old(self).ledgers@.contains_key(s));
                }
            }
        } else {
            self.ledgers.insert(stash, l2);
            proof {
                assert forall|s: AccountId| #[trigger] self.ledgers@.contains_key(s) implies self.ledgers@[s].balanced() by {
                    if s != stash {
                        assert(old(self).ledgers@.contains_key(s));
                    }
                }
            }
            pool_sync_action(stash, self.constants.bond_pool, old_total, new_total, &mut acts);
        }
        if new_total < old_total {
            events.push(Event::Withdrawn { stash, amount: old_total - new_total });
        }
        proof {
            let withdrawn = if new_total < old_total {
                seq![Event::Withdrawn { stash, amount: (old_total - new_total) as u128 }]
            } else {
                Seq::empty()
            };
            assert(events@ =~= old(events)@ + withdrawn);
            assert(retired_keys_purged(*old(self), mid, stash, current_era));
            if l2.unlocking.len() == 0 && (active < existential_deposit || active == 0) {
                let e: Seq<RuntimeAction> = if old_total != 0 {
                    seq![RuntimeAction::BondTransfer { from: self.constants.bond_pool, to: stash, amount: old_total }]
                } else {
                    Seq::empty()
                };
                assert(acts@ =~= e + seq![RuntimeAction::DecConsumers(stash)]);
            }
        }
        Ok(acts)
    }
}

/// What an election reports, entry by entry.
pub enum ElectionReport {
    /// A leaving attestor was set idle.
    Chilled(ChainKey, AccountId),
    /// The attestors a chain elected at an epoch, in election order.
    Elected(u64, ChainKey, Seq<AccountId>),
}

/// Event `e` is the report `r`.
pub open spec fn reports(e: Event, r: ElectionReport) -> bool {
    match r {
        ElectionReport::Chilled(c, id) => e == Event::AttestorChilled(c, id),
        ElectionReport::Elected(ep, c, elected) => match e {
            Event::AttestorsElected { epoch, chain_key, attestors } => epoch == ep && chain_key == c
                && attestors@ == elected,
            _ => false,
        },
    }
}

/// The events `e1` are the events `e0` followed by one event for each report of `rs`.
pub open spec fn appended_reports(e0: Seq<Event>, e1: Seq<Event>, rs: Seq<ElectionReport>) -> bool {
    &&& e1.len() == e0.len() + rs.len()
    &&& e1.take(e0.len() as int) == e0
    &&& forall|i: int| 0 <= i < rs.len() ==> reports(#[trigger] e1[e0.len() + i], rs[i])
}

pub proof fn lemma_appended_reports_empty(e0: Seq<Event>)
    ensures
        appended_reports(e0, e0, Seq::empty()),
{
    assert(e0.take(e0.len() as int) =~= e0);
}

pub proof fn lemma_appended_reports_push(e0: Seq<Event>, e1: Seq<Event>, rs: Seq<ElectionReport>, e: Event, r: ElectionReport)
    requires
        appended_reports(e0, e1, rs),
        reports(e, r),
    ensures
        appended_reports(e0, e1.push(e), rs.push(r)),
{
    assert(e1.push(e).take(e0.len() as int) =~= e1.take(e0.len() as int));
    assert forall|i: int| 0 <= i < rs.push(r).len() implies reports(#[trigger] e1.push(e)[e0.len() + i], rs.push(r)[i]) by {
        if i < rs.len() {
            assert(e1.push(e)[e0.len() + i] == e1[e0.len() + i]);
        }
    }
}

pub proof fn lemma_appended_reports_trans(
    e0: Seq<Event>,
    e1: Seq<Event>,
    e2: Seq<Event>,
    r1: Seq<ElectionReport>,
    r2: Seq<ElectionReport>,
)
    requires
        appended_reports(e0, e1, r1),
        appended_reports(e1, e2, r2),
    ensures
        appended_reports(e0, e2, r1 + r2),
{
    assert(e2.take(e0.len() as int) =~= e1.take(e0.len() as int)) by {
        assert forall|i: int| 0 <= i < e0.len() implies e2[i] == e1[i] by {
            assert(e2.take(e1.len() as int)[i] == e1[i]);
        }
    }
    assert forall|i: int| 0 <= i < (r1 + r2).len() implies reports(#[trigger] e2[e0.len() + i], (r1 + r2)[i]) by {
        if i < r1.len() {
            assert(e2.take(e1.len() as int)[e0.len() + i] == e1[e0.len() + i]);
        } else {
            let j = i - r1.len();
            assert(e2[e1.len() + j] == e2[e0.len() + i]);
        }
    }
}

/// The election among the attestors `ks` (in registry order) under `policy`: the
/// registry after it, the elected accounts in order, and the chill reports. Active
/// attestors stay elected; waiting ones become active when the policy admits them
/// (any under `OpenToAny`, authorized ones under `AuthorizedOnly`, none under
/// `DeniedToAll`); leaving ones become idle.
pub open spec fn elect_fold(
    atts: Map<(ChainKey, AccountId), Attestor>,
    authorized: Map<(ChainKey, AccountId), ()>,
    policy: AttestorElectionPolicy,
    ks: Seq<(ChainKey, AccountId)>,
) -> (Map<(ChainKey, AccountId), Attestor>, Seq<AccountId>, Seq<ElectionReport>)
    decreases ks.len(),
{
    if ks.len() == 0 {
        (atts, Seq::empty(), Seq::empty())
    } else {
        let prev = elect_fold(atts, authorized, policy, ks.drop_last());
        let k = ks.last();
        let m = prev.0;
        if !m.contains_key(k) {
            prev
        } else {
            let a = m[k];
            match a.status {
                AttestorStatus::Active => (m, prev.1.push(k.1), prev.2),
                AttestorStatus::Waiting => if policy == AttestorElectionPolicy::OpenToAny || (policy
                    == AttestorElectionPolicy::AuthorizedOnly && authorized.contains_key(k)) {
                    (
                        m.insert(
                            k,
                            Attestor { bls_public_key: a.bls_public_key, status: AttestorStatus::Active, stash: a.stash },
                        ),
                        prev.1.push(k.1),
                        prev.2,
                    )
                } else {
                    prev
                },
                AttestorStatus::Idle => prev,
                AttestorStatus::Leaving => (
                    m.insert(
                        k,
                        Attestor { bls_public_key: a.bls_public_key, status: AttestorStatus::Idle, stash: a.stash },
                    ),
                    prev.1,
                    prev.2.push(ElectionReport::Chilled(k.0, k.1)),
                ),
            }
        }
    }
}

/// The outcome of the election of epoch `epoch` over the chains `chains`, in order,
/// from the state `pre`: the registry, the active set of each chain, and the events.
pub open spec fn election_result(pre: AttestationPallet, epoch: u64, chains: Seq<ChainKey>) -> (Map<
    (ChainKey, AccountId),
    Attestor,
>, Map<ChainKey, Seq<AccountId>>, Seq<ElectionReport>)
    decreases chains.len(),
{
    if chains.len() == 0 {
        (pre.attestors@, Map::new(|c: ChainKey| true, |c: ChainKey| pre.active_of(c)), Seq::empty())
    } else {
        let prev = election_result(pre, epoch, chains.drop_last());
        let c = chains.last();
        let ks = pre.attestors.chain_order(c);
        let f = elect_fold(prev.0, pre.authorized@, pre.params_of(c).election_policy, ks);
        if f.1.len() == 0 && ks.len() == 0 {
            (f.0, prev.1, prev.2 + f.2)
        } else {
            (
                f.0,
                prev.1.insert(c, f.1),
                prev.2 + f.2 + seq![ElectionReport::Elected(epoch, c, f.1)],
            )
        }
    }
}

impl AttestationPallet {
    /// Everything but the registry and the active sets is that of `other`.
    pub open spec fn same_except_election(&self, other: Self) -> bool {
        &&& self.same_config_and_store(other)
        &&& self.attestors_count == other.attestors_count
        &&& self.invulnerables == other.invulnerables
        &&& self.authorized == other.authorized
        &&& self.ledgers == other.ledgers
        &&& self.retired_keys == other.retired_keys
        &&& self.retired_by_stash == other.retired_by_stash
        &&& self.bls_key_owner == other.bls_key_owner
    }

    /// Elects the attestors of `chain_key` for epoch `epoch`.
    fn elect_chain(&mut self, epoch: u64, chain_key: ChainKey, events: &mut Vec<Event>)
        requires
            old(self).wf(),
        ensures
            final(self).wf(),
            final(self).same_except_election(*old(self)),
            final(self).attestors.key_seq() == old(self).attestors.key_seq(),
            ({
                let ks = old(self).attestors.chain_order(chain_key);
                let f = elect_fold(
                    old(self).attestors@,
                    old(self).authorized@,
                    old(self).params_of(chain_key).election_policy,
                    ks,
                );
                &&& final(self).attestors@ == f.0
                &&& if f.1.len() == 0 && ks.len() == 0 {
                    final(self).active_attestors == old(self).active_attestors && appended_reports(
                        old(events)@,
                        final(events)@,
                        f.2,
                    )
                } else {
                    &&& final(self).active_of(chain_key) == f.1
                    &&& forall|c: ChainKey| c != chain_key ==> #[trigger] final(self).active_of(c) == old(self).active_of(c)
                    &&& appended_reports(
                        old(events)@,
                        final(events)@,
                        f.2.push(ElectionReport::Elected(epoch, chain_key, f.1)),
                    )
                }
            }),
    {
        let ks = self.attestors.keys_of_chain(chain_key);
        let policy = self.params_for(chain_key).election_policy;
        let ghost a0 = self.attestors@;
        let ghost e0 = events@;
        let mut selected: Vec<AccountId> = Vec::new();
        let mut i: usize = 0;
        proof {
            assert(ks@.take(0) =~= Seq::<(ChainKey, AccountId)>::empty());
            lemma_appended_reports_empty(e0);
        }
        while i < ks.len()
            invariant
                self.wf(),
                i <= ks@.len(),
                self.same_except_election(*old(self)),
                self.active_attestors == old(self).active_attestors,
                self.attestors.key_seq() == old(self).attestors.key_seq(),
                a0 == old(self).attestors@,
                e0 == old(events)@,
                policy == old(self).params_of(chain_key).election_policy,
                ({
                    let f = elect_fold(a0, old(self).authorized@, policy, ks@.take(i as int));
                    &&& self.attestors@ == f.0
                    &&& selected@ == f.1
                    &&& appended_reports(e0, events@, f.2)
                }),
            decreases ks@.len() - i,
        {
            let k = ks[i];
            proof {
                assert(ks@.take(i + 1).drop_last() =~= ks@.take(i as int));
            }
            let ghost pairs0 = self.attestors.pairs();
            match self.attestors.get(&k) {
                None => {},
                Some(a) => {
                    let a = *a;
                    match a.status {
                        AttestorStatus::Active => {
                            selected.push(k.1);
                        },
                        AttestorStatus::Waiting => {
                            let admitted = match policy {
                                AttestorElectionPolicy::OpenToAny => true,
                                AttestorElectionPolicy::AuthorizedOnly => self.authorized.contains_key(&k),
                                AttestorElectionPolicy::DeniedToAll => false,
                            };
                            if admitted {
                                self.attestors.insert(
                                    k,
                                    Attestor { bls_public_key: a.bls_public_key, status: AttestorStatus::Active, stash: a.stash },
                                );
                                selected.push(k.1);
                            }
                        },
                        AttestorStatus::Idle => {},
                        AttestorStatus::Leaving => {
                            self.attestors.insert(
                                k,
                                Attestor { bls_public_key: a.bls_public_key, status: AttestorStatus::Idle, stash: a.stash },
                            );
                            let ghost ev = events@;
                            events.push(Event::AttestorChilled(k.0, k.1));
                            proof {
                                let f0 = elect_fold(a0, old(self).authorized@, policy, ks@.take(i as int));
                                lemma_appended_reports_push(
                                    e0,
                                    ev,
                                    f0.2,
                                    Event::AttestorChilled(k.0, k.1),
                                    ElectionReport::Chilled(k.0, k.1),
                                );
                            }
                        },
                    }
                },
            }
            proof {
                assert(self.attestors.key_seq() =~= old(self).attestors.key_seq());
            }
            i = i + 1;
        }
        proof {
            assert(ks@.take(ks@.len() as int) =~= ks@);
        }
        if selected.len() == 0 && ks.len() == 0 {
            return;
        }
        let elected = copy_accounts(&selected);
        let ghost mid = *self;
        let ghost ev = events@;
        self.active_attestors.insert(chain_key, selected);
        events.push(Event::AttestorsElected { epoch, chain_key, attestors: elected });
        proof {
            let f = elect_fold(a0, old(self).authorized@, policy, ks@);
            lemma_appended_reports_push(
                e0,
                ev,
                f.2,
                Event::AttestorsElected { epoch, chain_key, attestors: elected },
                ElectionReport::Elected(epoch, chain_key, f.1),
            );
            assert forall|c: ChainKey| c != chain_key implies #[trigger] self.active_of(c) == old(self).active_of(c) by {
                assert(mid.active_of(c) == old(self).active_of(c));
            }
        }
    }

    /// Elects, for epoch `epoch`, the attestors of each chain of `supported_chains`
    /// in turn.
    pub fn do_start_election(&mut self, epoch: u64, supported_chains: &Vec<ChainKey>, events: &mut Vec<Event>)
        requires
            old(self).wf(),
        ensures
            final(self).wf(),
            final(self).same_except_election(*old(self)),
            ({
                let res = election_result(*old(self), epoch, supported_chains@);
                &&& final(self).attestors@ == res.0
                &&& forall|c: ChainKey| #[trigger] final(self).active_of(c) == res.1[c]
                &&& appended_reports(old(events)@, final(events)@, res.2)
            }),
    {
        let ghost pre = *self;
        let mut i: usize = 0;
        proof {
            assert(supported_chains@.take(0) =~= Seq::<ChainKey>::empty());
            lemma_appended_reports_empty(old(events)@);
        }
        while i < supported_chains.len()
            invariant
                self.wf(),
                pre == *old(self),
                i <= supported_chains@.len(),
                self.same_except_election(pre),
                self.attestors.key_seq() == pre.attestors.key_seq(),
                ({
                    let res = election_result(pre, epoch, supported_chains@.take(i as int));
                    &&& self.attestors@ == res.0
                    &&& forall|c: ChainKey| #[trigger] self.active_of(c) == res.1[c]
                    &&& appended_reports(old(events)@, events@, res.2)
                }),
            decreases supported_chains@.len() - i,
        {
            let c = supported_chains[i];
            proof {
                assert(supported_chains@.take(i + 1).drop_last() =~= supported_chains@.take(i as int));
            }
            let ghost before = *self;
            let ghost ev_before = events@;
            self.elect_chain(epoch, c, events);
            proof {
                let prev = election_result(pre, epoch, supported_chains@.take(i as int));
                let res = election_result(pre, epoch, supported_chains@.take(i + 1));
                assert(before.params_of(c) == pre.params_of(c));
                assert(before.authorized == pre.authorized);
                lemma_election_total(pre, epoch, supported_chains@.take(i as int));
                lemma_election_total(pre, epoch, supported_chains@.take(i + 1));
                assert forall|x: ChainKey| #[trigger] self.active_of(x) == res.1[x] by {
                    assert(before.active_of(x) == prev.1[x]);
                    let ks = pre.attestors.chain_order(c);
                    let f = elect_fold(prev.0, pre.authorized@, pre.params_of(c).election_policy, ks);
                    if f.1.len() == 0 && ks.len() == 0 {
                        assert(self.active_attestors == before.active_attestors);
                        assert(self.active_of(x) == before.active_of(x));
                    } else if x != c {
                        assert(self.active_of(x) == before.active_of(x));
                    }
                }
                let ks = pre.attestors.chain_order(c);
                let f = elect_fold(prev.0, pre.authorized@, pre.params_of(c).election_policy, ks);
                if f.1.len() == 0 && ks.len() == 0 {
                    lemma_appended_reports_trans(old(events)@, ev_before, events@, prev.2, f.2);
                    assert(prev.2 + f.2 == res.2);
                } else {
                    let rs = f.2.push(ElectionReport::Elected(epoch, c, f.1));
                    lemma_appended_reports_trans(old(events)@, ev_before, events@, prev.2, rs);
                    assert(prev.2 + rs =~= res.2);
                }
            }
            i = i + 1;
        }
        proof {
            assert(supported_chains@.take(supported_chains@.len() as int) =~= supported_chains@);
        }
    }
}

/// `p` with one parameter set to `v`: the attestation interval (`field` 0), the
/// target sample size (1) or the maximum catch-up (2).
pub open spec fn set_param(p: ChainParams, field: int, v: u64) -> ChainParams {
    ChainParams {
        attestation_interval: if field == 0 {
            v
        } else {
            p.attestation_interval
        },
        checkpoint_interval: p.checkpoint_interval,
        retention: p.retention,
        target_sample_size: if field == 1 {
            v as u32
        } else {
            p.target_sample_size
        },
        max_attestors: p.max_attestors,
        max_invulnerables: p.max_invulnerables,
        min_bond: p.min_bond,
        genesis_block_number: p.genesis_block_number,
        election_policy: p.election_policy,
        max_catchup: if field == 2 {
            v as u32
        } else {
            p.max_catchup
        },
    }
}

/// The chain parameters after the pending updates `ups` of one parameter are applied
/// in order.
pub open spec fn apply_param_updates(
    params: Map<ChainKey, ChainParams>,
    defaults: ChainParams,
    field: int,
    ups: Seq<(ChainKey, u64)>,
) -> Map<ChainKey, ChainParams>
    decreases ups.len(),
{
    if ups.len() == 0 {
        params
    } else {
        let m = apply_param_updates(params, defaults, field, ups.drop_last());
        let c = ups.last().0;
        let cur = if m.contains_key(c) {
            m[c]
        } else {
            defaults
        };
        m.insert(c, set_param(cur, field, ups.last().1))
    }
}

/// The pending updates of a `u32` parameter, widened.
pub open spec fn widened(ups: Seq<(ChainKey, u32)>) -> Seq<(ChainKey, u64)> {
    ups.map_values(|p: (ChainKey, u32)| (p.0, p.1 as u64))
}

/// `m` without its first `limit` keys.
pub open spec fn cleared_prefix<V>(m: KeyMap<ChainKey, V>, limit: u32) -> Map<ChainKey, V> {
    m@.remove_keys(m.key_seq().take(if limit < m.spec_len() { limit as int } else { m.spec_len() as int }).to_set())
}

/// Removes the first `limit` entries of `m`.
pub fn clear_first<V>(m: &mut KeyMap<ChainKey, V>, limit: u32)
    requires
        old(m).wf(),
    ensures
        final(m).wf(),
        final(m)@ == cleared_prefix(*old(m), limit),
{
    let n = m.len();
    let k: usize = if (limit as usize) < n {
        limit as usize
    } else {
        n
    };
    let mut keys: Vec<ChainKey> = Vec::new();
    let mut i: usize = 0;
    while i < k
        invariant
            m.wf(),
            *m == *old(m),
            k <= n,
            n == m.spec_len(),
            i <= k,
            keys@ == m.key_seq().take(i as int),
        decreases k - i,
    {
        keys.push(*m.key_at(i));
        proof {
            assert(m.key_seq().take(i + 1) =~= m.key_seq().take(i as int).push(m.pairs()[i as int].0));
        }
        i = i + 1;
    }
    let ghost m0 = m@;
    let mut j: usize = 0;
    while j < keys.len()
        invariant
            m.wf(),
            j <= keys@.len(),
            m@ == m0.remove_keys(keys@.take(j as int).to_set()),
        decreases keys@.len() - j,
    {
        let key = keys[j];
        let _ = m.remove(&key);
        proof {
            assert(keys@.take(j + 1) =~= keys@.take(j as int).push(key));
            keys@.take(j as int).lemma_push_to_set_commute(key);
            assert(m@ =~= m0.remove_keys(keys@.take(j + 1).to_set()));
        }
        j = j + 1;
    }
    proof {
        assert(keys@.take(keys@.len() as int) =~= keys@);
        assert(limit < old(m).spec_len() ==> k == limit);
    }
}

impl AttestationPallet {
    /// Whether `post` (with events `e1`) is `pre` (with events `e0`) after the pending
    /// parameter updates were applied and up to `supported_count` of each kind cleared.
    pub open spec fn updates_applied(pre: AttestationPallet, post: AttestationPallet, e0: Seq<Event>, e1: Seq<Event>, supported_count: u32) -> bool {
        &&& (({
                let ui = pre.pending_intervals.pairs();
                let us = widened(pre.pending_sample_sizes.pairs());
                let uc = widened(pre.pending_max_catchup.pairs());
                let p1 = apply_param_updates(pre.params@, pre.defaults, 0, ui);
                let p2 = apply_param_updates(p1, pre.defaults, 1, us);
                &&& post.params@ == apply_param_updates(p2, pre.defaults, 2, uc)
                &&& e1 == e0 + ui.map_values(
                    |p: (ChainKey, u64)| Event::AttestationIntervalChanged(p.0, p.1),
                ) + pre.pending_sample_sizes.pairs().map_values(
                    |p: (ChainKey, u32)| Event::TargetSampleSizeChanged(p.0, p.1),
                ) + pre.pending_max_catchup.pairs().map_values(
                    |p: (ChainKey, u32)| Event::MaxCatchupChanged(p.0, p.1),
                )
            }))
        &&& (post.pending_intervals@ == cleared_prefix(pre.pending_intervals, supported_count))
        &&& (post.pending_sample_sizes@ == cleared_prefix(pre.pending_sample_sizes, supported_count))
        &&& (post.pending_max_catchup@ == cleared_prefix(pre.pending_max_catchup, supported_count))
        &&& (post.store == pre.store)
        &&& (post.defaults == pre.defaults)
        &&& (post.constants == pre.constants)
        &&& (post.attestors == pre.attestors)
        &&& (post.attestors_count == pre.attestors_count)
        &&& (post.active_attestors == pre.active_attestors)
        &&& (post.invulnerables == pre.invulnerables)
        &&& (post.authorized == pre.authorized)
        &&& (post.ledgers == pre.ledgers)
        &&& (post.retired_keys == pre.retired_keys)
        &&& (post.retired_by_stash == pre.retired_by_stash)
        &&& (post.bls_key_owner == pre.bls_key_owner)
    }

    /// Applies the pending changes of the attestation interval, the target sample size
    /// and the maximum catch-up, in that order and each in its pending order, then
    /// clears up to `supported_count` pending entries of each kind.
    pub fn apply_interval_updates(&mut self, supported_count: u32, events: &mut Vec<Event>)
        requires
            old(self).wf(),
        ensures
            final(self).wf(),
            Self::updates_applied(*old(self), *final(self), old(events)@, final(events)@, supported_count),
    {
        let ghost p0 = self.params@;
        let ghost e0 = events@;
        let ghost ui = self.pending_intervals.pairs();
        let ghost us = widened(self.pending_sample_sizes.pairs());
        let ghost uc = widened(self.pending_max_catchup.pairs());
        let ghost ev_i = ui.map_values(|p: (ChainKey, u64)| Event::AttestationIntervalChanged(p.0, p.1));
        let ghost ev_s = self.pending_sample_sizes.pairs().map_values(
            |p: (ChainKey, u32)| Event::TargetSampleSizeChanged(p.0, p.1),
        );
        let ghost ev_c = self.pending_max_catchup.pairs().map_values(
            |p: (ChainKey, u32)| Event::MaxCatchupChanged(p.0, p.1),
        );
        let n = self.pending_intervals.len();
        let mut i: usize = 0;
        proof {
            assert(ui.take(0) =~= Seq::<(ChainKey, u64)>::empty());
            assert(e0 + ev_i.take(0) =~= e0);
        }
        while i < n
            invariant
                self.wf(),
                n == ui.len(),
                i <= n,
                ui == self.pending_intervals.pairs(),
                ev_i == ui.map_values(|p: (ChainKey, u64)| Event::AttestationIntervalChanged(p.0, p.1)),
                self.params@ == apply_param_updates(p0, self.defaults, 0, ui.take(i as int)),
                events@ == e0 + ev_i.take(i as int),
                self.defaults == old(self).defaults,
                self.pending_sample_sizes == old(self).pending_sample_sizes,
                self.pending_max_catchup == old(self).pending_max_catchup,
                self.pending_intervals == old(self).pending_intervals,
                self.store == old(self).store,
                self.constants == old(self).constants,
                self.attestors == old(self).attestors,
                self.attestors_count == old(self).attestors_count,
                self.active_attestors == old(self).active_attestors,
                self.invulnerables == old(self).invulnerables,
                self.authorized == old(self).authorized,
                self.ledgers == old(self).ledgers,
                self.retired_keys == old(self).retired_keys,
                self.retired_by_stash == old(self).retired_by_stash,
                self.bls_key_owner == old(self).bls_key_owner,
            decreases n - i,
        {
            let c = *self.pending_intervals.key_at(i);
            let v = *self.pending_intervals.value_at(i);
            let cur = self.params_for(c);
            let next = ChainParams {
                attestation_interval: v,
                checkpoint_interval: cur.checkpoint_interval,
                retention: cur.retention,
                target_sample_size: cur.target_sample_size,
                max_attestors: cur.max_attestors,
                max_invulnerables: cur.max_invulnerables,
                min_bond: cur.min_bond,
                genesis_block_number: cur.genesis_block_number,
                election_policy: cur.election_policy,
                max_catchup: cur.max_catchup,
            };
            self.params.insert(c, next);
            events.push(Event::AttestationIntervalChanged(c, v));
            proof {
                assert(ui.take(i + 1).drop_last() =~= ui.take(i as int));
                assert(ev_i.take(i + 1) =~= ev_i.take(i as int).push(Event::AttestationIntervalChanged(c, v)));
            }
            i = i + 1;
        }
        proof {
            assert(ui.take(n as int) =~= ui);
            assert(ev_i.take(n as int) =~= ev_i);
        }
        let ghost p1 = self.params@;
        let ghost e1 = events@;
        let n = self.pending_sample_sizes.len();
        let mut i: usize = 0;
        proof {
            assert(us.take(0) =~= Seq::<(ChainKey, u64)>::empty());
            assert(e1 + ev_s.take(0) =~= e1);
        }
        while i < n
            invariant
                self.wf(),
                n == us.len(),
                i <= n,
                us == widened(self.pending_sample_sizes.pairs()),
                ev_s == self.pending_sample_sizes.pairs().map_values(
                    |p: (ChainKey, u32)| Event::TargetSampleSizeChanged(p.0, p.1),
                ),
                self.params@ == apply_param_updates(p1, self.defaults, 1, us.take(i as int)),
                events@ == e1 + ev_s.take(i as int),
                self.defaults == old(self).defaults,
                self.pending_sample_sizes == old(self).pending_sample_sizes,
                self.pending_max_catchup == old(self).pending_max_catchup,
                self.pending_intervals == old(self).pending_intervals,
                self.store == old(self).store,
                self.constants == old(self).constants,
                self.attestors == old(self).attestors,
                self.attestors_count == old(self).attestors_count,
                self.active_attestors == old(self).active_attestors,
                self.invulnerables == old(self).invulnerables,
                self.authorized == old(self).authorized,
                self.ledgers == old(self).ledgers,
                self.retired_keys == old(self).retired_keys,
                self.retired_by_stash == old(self).retired_by_stash,
                self.bls_key_owner == old(self).bls_key_owner,
            decreases n - i,
        {
            let c = *self.pending_sample_sizes.key_at(i);
            let v = *self.pending_sample_sizes.value_at(i);
            let cur = self.params_for(c);
            let next = ChainParams {
                attestation_interval: cur.attestation_interval,
                checkpoint_interval: cur.checkpoint_interval,
                retention: cur.retention,
                target_sample_size: v,
                max_attestors: cur.max_attestors,
                max_invulnerables: cur.max_invulnerables,
                min_bond: cur.min_bond,
                genesis_block_number: cur.genesis_block_number,
                election_policy: cur.election_policy,
                max_catchup: cur.max_catchup,
            };
            self.params.insert(c, next);
            events.push(Event::TargetSampleSizeChanged(c, v));
            proof {
                assert(us.take(i + 1).drop_last() =~= us.take(i as int));
                assert(us[i as int] == (c, v as u64));
                assert(ev_s.take(i + 1) =~= ev_s.take(i as int).push(Event::TargetSampleSizeChanged(c, v)));
            }
            i = i + 1;
        }
        proof {
            assert(us.take(n as int) =~= us);
            assert(ev_s.take(n as int) =~= ev_s);
        }
        let ghost p2 = self.params@;
        let ghost e2 = events@;
        let n = self.pending_max_catchup.len();
        let mut i: usize = 0;
        proof {
            assert(uc.take(0) =~= Seq::<(ChainKey, u64)>::empty());
            assert(e2 + ev_c.take(0) =~= e2);
        }
        while i < n
            invariant
                self.wf(),
                n == uc.len(),
                i <= n,
                uc == widened(self.pending_max_catchup.pairs()),
                ev_c == self.pending_max_catchup.pairs().map_values(
                    |p: (ChainKey, u32)| Event::MaxCatchupChanged(p.0, p.1),
                ),
                self.params@ == apply_param_updates(p2, self.defaults, 2, uc.take(i as int)),
                events@ == e2 + ev_c.take(i as int),
                self.defaults == old(self).defaults,
                self.pending_sample_sizes == old(self).pending_sample_sizes,
                self.pending_max_catchup == old(self).pending_max_catchup,
                self.pending_intervals == old(self).pending_intervals,
                self.store == old(self).store,
                self.constants == old(self).constants,
                self.attestors == old(self).attestors,
                self.attestors_count == old(self).attestors_count,
                self.active_attestors == old(self).active_attestors,
                self.invulnerables == old(self).invulnerables,
                self.authorized == old(self).authorized,
                self.ledgers == old(self).ledgers,
                self.retired_keys == old(self).retired_keys,
                self.retired_by_stash == old(self).retired_by_stash,
                self.bls_key_owner == old(self).bls_key_owner,
            decreases n - i,
        {
            let c = *self.pending_max_catchup.key_at(i);
            let v = *self.pending_max_catchup.value_at(i);
            let cur = self.params_for(c);
            let next = ChainParams {
                attestation_interval: cur.attestation_interval,
                checkpoint_interval: cur.checkpoint_interval,
                retention: cur.retention,
                target_sample_size: cur.target_sample_size,
                max_attestors: cur.max_attestors,
                max_invulnerables: cur.max_invulnerables,
                min_bond: cur.min_bond,
                genesis_block_number: cur.genesis_block_number,
                election_policy: cur.election_policy,
                max_catchup: v,
            };
            self.params.insert(c, next);
            events.push(Event::MaxCatchupChanged(c, v));
            proof {
                assert(uc.take(i + 1).drop_last() =~= uc.take(i as int));
                assert(uc[i as int] == (c, v as u64));
                assert(ev_c.take(i + 1) =~= ev_c.take(i as int).push(Event::MaxCatchupChanged(c, v)));
            }
            i = i + 1;
        }
        proof {
            assert(uc.take(n as int) =~= uc);
            assert(ev_c.take(n as int) =~= ev_c);
            assert(events@ =~= e0 + ev_i + ev_s + ev_c);
        }
        clear_first(&mut self.pending_intervals, supported_count);
        clear_first(&mut self.pending_sample_sizes, supported_count);
        clear_first(&mut self.pending_max_catchup, supported_count);
    }
}

/// Every chain has an active set in the outcome of an election.
pub proof fn lemma_election_total(pre: AttestationPallet, epoch: u64, chains: Seq<ChainKey>)
    ensures
        forall|c: ChainKey| #[trigger] election_result(pre, epoch, chains).1.contains_key(c),
    decreases chains.len(),
{
    if chains.len() > 0 {
        lemma_election_total(pre, epoch, chains.drop_last());
        assert forall|c: ChainKey| #[trigger] election_result(pre, epoch, chains).1.contains_key(c) by {
            assert(election_result(pre, epoch, chains.drop_last()).1.contains_key(c));
        }
    } else {
        assert forall|c: ChainKey| #[trigger] election_result(pre, epoch, chains).1.contains_key(c) by {
            assert(Map::new(|c: ChainKey| true, |c: ChainKey| pre.active_of(c)).dom().contains(c));
        }
    }
}

/// A copy of a sequence of `(chain, account)` pairs.
pub fn copy_pairs(v: &Vec<(ChainKey, AccountId)>) -> (r: Vec<(ChainKey, AccountId)>)
    ensures
        r@ == v@,
{
    let mut r: Vec<(ChainKey, AccountId)> = Vec::new();
    let mut i: usize = 0;
    while i < v.len()
        invariant
            i <= v@.len(),
            r@ == v@.take(i as int),
        decreases v@.len() - i,
    {
        r.push(v[i]);
        proof {
            assert(v@.take(i + 1) =~= v@.take(i as int).push(v@[i as int]));
        }
        i = i + 1;
    }
    proof {
        assert(v@.take(v@.len() as int) =~= v@);
    }
    r
}

} // verus!
