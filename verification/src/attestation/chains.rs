use vstd::prelude::*;

use crate::attestation::model::{Attestor, AttestorStatus, Event};
use crate::attestation::pallet::{AttestationPallet, ChainParams};
use crate::attestation::registry::swap_removed;
use crate::attestation::store::MAX_CHECKPOINTS_CLEARED_PER_BLOCK;
use crate::types::{AccountId, ChainKey};

verus! {

/// `s` with each of `ids` swap-removed in turn.
pub open spec fn swap_removed_all(s: Seq<AccountId>, ids: Seq<AccountId>) -> Seq<AccountId>
    decreases ids.len(),
{
    if ids.len() == 0 {
        s
    } else {
        swap_removed(swap_removed_all(s, ids.drop_last()), ids.last())
    }
}

/// `atts` with every attestor of `ks` idle.
pub open spec fn all_idle(
    atts: Map<(ChainKey, AccountId), Attestor>,
    ks: Seq<(ChainKey, AccountId)>,
) -> Map<(ChainKey, AccountId), Attestor> {
    Map::new(
        |k: (ChainKey, AccountId)| atts.contains_key(k),
        |k: (ChainKey, AccountId)| if ks.contains(k) {
            Attestor { bls_public_key: atts[k].bls_public_key, status: AttestorStatus::Idle, stash: atts[k].stash }
        } else {
            atts[k]
        },
    )
}

/// The parameters of a chain after the chain is removed: those kept per chain
/// (retention, minimum bond, genesis block, election policy) stay, the others return
/// to their defaults.
pub open spec fn removed_chain_params(p: ChainParams, d: ChainParams) -> ChainParams {
    ChainParams {
        attestation_interval: d.attestation_interval,
        checkpoint_interval: d.checkpoint_interval,
        retention: p.retention,
        target_sample_size: d.target_sample_size,
        max_attestors: d.max_attestors,
        max_invulnerables: d.max_invulnerables,
        min_bond: p.min_bond,
        genesis_block_number: p.genesis_block_number,
        election_policy: p.election_policy,
        max_catchup: d.max_catchup,
    }
}

/// The parameters of a newly registered chain: each given value, else its default.
pub open spec fn registered_chain_params(
    p: ChainParams,
    d: ChainParams,
    target_sample_size: Option<u32>,
    attestation_interval: Option<u64>,
    checkpoint_interval: Option<u32>,
    max_attestors: Option<u32>,
    max_invulnerables: Option<u32>,
    genesis_block_number: Option<u64>,
) -> ChainParams {
    ChainParams {
        attestation_interval: match attestation_interval {
            Some(v) => v,
            None => d.attestation_interval,
        },
        checkpoint_interval: match checkpoint_interval {
            Some(v) => v,
            None => d.checkpoint_interval,
        },
        retention: p.retention,
        target_sample_size: match target_sample_size {
            Some(v) => v,
            None => d.target_sample_size,
        },
        max_attestors: match max_attestors {
            Some(v) => v,
            None => d.max_attestors,
        },
        max_invulnerables: match max_invulnerables {
            Some(v) => v,
            None => d.max_invulnerables,
        },
        min_bond: p.min_bond,
        genesis_block_number: match genesis_block_number {
            Some(v) => v,
            None => d.genesis_block_number,
        },
        election_policy: p.election_policy,
        max_catchup: p.max_catchup,
    }
}

fn or_u32(v: Option<u32>, d: u32) -> (r: u32)
    ensures
        r == match v {
            Some(x) => x,
            None => d,
        },
{
    match v {
        Some(x) => x,
        None => d,
    }
}

fn or_u64(v: Option<u64>, d: u64) -> (r: u64)
    ensures
        r == match v {
            Some(x) => x,
            None => d,
        },
{
    match v {
        Some(x) => x,
        None => d,
    }
}

impl AttestationPallet {
    /// What setting up the attestation of a newly registered chain does: `pre` becomes
    /// `post` and the events `e0` become `e1`.
    pub open spec fn chain_registered_effect(pre: AttestationPallet, post: AttestationPallet, e0: Seq<Event>, e1: Seq<Event>, chain_key: ChainKey, target_sample_size: Option<u32>, attestation_interval: Option<u64>, checkpoint_interval: Option<u32>, max_attestors: Option<u32>, max_invulnerables: Option<u32>, genesis_block_number: Option<u64>) -> bool {
        &&& (({
                let p = registered_chain_params(
                    pre.params_of(chain_key),
                    pre.defaults,
                    target_sample_size,
                    attestation_interval,
                    checkpoint_interval,
                    max_attestors,
                    max_invulnerables,
                    genesis_block_number,
                );
                &&& post.params@ == pre.params@.insert(chain_key, p)
                &&& e1 == e0 + seq![
                    Event::TargetSampleSizeChanged(chain_key, p.target_sample_size),
                    Event::AttestationIntervalChanged(chain_key, p.attestation_interval),
                    Event::CheckpointIntervalChanged(chain_key, p.checkpoint_interval),
                    Event::MaxAttestorsChanged(chain_key, p.max_attestors),
                    Event::AttestationChainGenesisBlockNumberSet(chain_key, p.genesis_block_number),
                ]
            }))
        &&& (post.store == pre.store)
        &&& (post.defaults == pre.defaults)
        &&& (post.constants == pre.constants)
        &&& (post.attestors == pre.attestors)
        &&& (post.attestors_count == pre.attestors_count)
        &&& (post.active_attestors == pre.active_attestors)
        &&& (post.invulnerables == pre.invulnerables)
        &&& (post.authorized == pre.authorized)
        &&& (post.ledgers == pre.ledgers)
        &&& (post.retired_keys == pre.retired_keys)
        &&& (post.retired_by_stash == pre.retired_by_stash)
        &&& (post.bls_key_owner == pre.bls_key_owner)
        &&& (post.pending_intervals == pre.pending_intervals)
        &&& (post.pending_sample_sizes == pre.pending_sample_sizes)
        &&& (post.pending_max_catchup == pre.pending_max_catchup)
    }

    /// Sets up the parameters of a newly registered chain, each given value or its
    /// default, and emits the events of the changes.
    pub fn on_register_chain(
        &mut self,
        chain_key: ChainKey,
        target_sample_size: Option<u32>,
        attestation_interval: Option<u64>,
        checkpoint_interval: Option<u32>,
        max_attestors: Option<u32>,
        max_invulnerables: Option<u32>,
        genesis_block_number: Option<u64>,
        events: &mut Vec<Event>,
    )
        requires
            old(self).wf(),
        ensures
            final(self).wf(),
            Self::chain_registered_effect(*old(self), *final(self), old(events)@, final(events)@, chain_key, target_sample_size, attestation_interval, checkpoint_interval, max_attestors, max_invulnerables, genesis_block_number),
    {
        let cur = self.params_for(chain_key);
        let d = self.defaults;
        let p = ChainParams {
            attestation_interval: or_u64(attestation_interval, d.attestation_interval),
            checkpoint_interval: or_u32(checkpoint_interval, d.checkpoint_interval),
            retention: cur.retention,
            target_sample_size: or_u32(target_sample_size, d.target_sample_size),
            max_attestors: or_u32(max_attestors, d.max_attestors),
            max_invulnerables: or_u32(max_invulnerables, d.max_invulnerables),
            min_bond: cur.min_bond,
            genesis_block_number: or_u64(genesis_block_number, d.genesis_block_number),
            election_policy: cur.election_policy,
            max_catchup: cur.max_catchup,
        };
        self.params.insert(chain_key, p);
        events.push(Event::TargetSampleSizeChanged(chain_key, p.target_sample_size));
        events.push(Event::AttestationIntervalChanged(chain_key, p.attestation_interval));
        events.push(Event::CheckpointIntervalChanged(chain_key, p.checkpoint_interval));
        events.push(Event::MaxAttestorsChanged(chain_key, p.max_attestors));
        events.push(Event::AttestationChainGenesisBlockNumberSet(chain_key, p.genesis_block_number));
        assert(events@ =~= old(events)@ + seq![
            Event::TargetSampleSizeChanged(chain_key, p.target_sample_size),
            Event::AttestationIntervalChanged(chain_key, p.attestation_interval),
            Event::CheckpointIntervalChanged(chain_key, p.checkpoint_interval),
            Event::MaxAttestorsChanged(chain_key, p.max_attestors),
            Event::AttestationChainGenesisBlockNumberSet(chain_key, p.genesis_block_number),
        ]);
    }

    /// Sets every attestor of `chain_key` idle at once and drops each from the
    /// active set, one `AttestorChilled` event each, in registry order.
    pub fn chill_all_attestors_for_chain(&mut self, chain_key: ChainKey, events: &mut Vec<Event>)
        requires
            old(self).wf(),
        ensures
            final(self).wf(),
            ({
                let ks = old(self).attestors.chain_order(chain_key);
                &&& final(self).attestors@ == all_idle(old(self).attestors@, ks)
                &&& final(self).active_of(chain_key) == swap_removed_all(
                    old(self).active_of(chain_key),
                    ks.map_values(|k: (ChainKey, AccountId)| k.1),
                )
                &&& forall|c: ChainKey| c != chain_key ==> #[trigger] final(self).active_of(c) == old(self).active_of(c)
                &&& final(events)@ == old(events)@ + ks.map_values(
                    |k: (ChainKey, AccountId)| Event::AttestorChilled(k.0, k.1),
                )
            }),
            final(self).same_config_and_store(*old(self)),
            final(self).attestors_count == old(self).attestors_count,
            final(self).invulnerables == old(self).invulnerables,
            final(self).authorized == old(self).authorized,
            final(self).ledgers == old(self).ledgers,
            final(self).retired_keys == old(self).retired_keys,
            final(self).retired_by_stash == old(self).retired_by_stash,
            final(self).bls_key_owner == old(self).bls_key_owner,
    {
        let ks = self.attestors.keys_of_chain(chain_key);
        let ghost ids = ks@.map_values(|k: (ChainKey, AccountId)| k.1);
        let ghost evs = ks@.map_values(|k: (ChainKey, AccountId)| Event::AttestorChilled(k.0, k.1));
        let ghost a0 = self.attestors@;
        let mut i: usize = 0;
        proof {
            assert forall|j: int| 0 <= j < ks@.len() implies #[trigger] a0.contains_key(ks@[j]) && ks@[j].0 == chain_key by {
                assert(ks@.to_set().contains(ks@[j]));
            }
            assert(a0 =~= all_idle(a0, ks@.take(0)));
            assert(old(events)@ + evs.take(0) =~= old(events)@);
            assert(ids.take(0) =~= Seq::<AccountId>::empty());
        }
        while i < ks.len()
            invariant
                self.wf(),
                i <= ks@.len(),
                a0 == old(self).attestors@,
                ks@ == old(self).attestors.chain_order(chain_key),
                ks@.no_duplicates(),
                forall|j: int| 0 <= j < ks@.len() ==> #[trigger] a0.contains_key(ks@[j]) && ks@[j].0 == chain_key,
                ids == ks@.map_values(|k: (ChainKey, AccountId)| k.1),
                evs == ks@.map_values(|k: (ChainKey, AccountId)| Event::AttestorChilled(k.0, k.1)),
                self.attestors@ == all_idle(a0, ks@.take(i as int)),
                self.active_of(chain_key) == swap_removed_all(old(self).active_of(chain_key), ids.take(i as int)),
                forall|c: ChainKey| c != chain_key ==> #[trigger] self.active_of(c) == old(self).active_of(c),
                events@ == old(events)@ + evs.take(i as int),
                self.same_config_and_store(*old(self)),
                self.attestors_count == old(self).attestors_count,
                self.invulnerables == old(self).invulnerables,
                self.authorized == old(self).authorized,
                self.ledgers == old(self).ledgers,
                self.retired_keys == old(self).retired_keys,
                self.retired_by_stash == old(self).retired_by_stash,
                self.bls_key_owner == old(self).bls_key_owner,
            decreases ks@.len() - i,
        {
            let k = ks[i];
            let ghost before = *self;
            self.do_chill_attestor_immediate(chain_key, k.1, events);
            proof {
                assert(k.0 == chain_key);
                assert(!ks@.take(i as int).contains(k)) by {
                    if ks@.take(i as int).contains(k) {
                        let j = choose|j: int| 0 <= j < i && ks@.take(i as int)[j] == k;
                        assert(ks@[j] == ks@[i as int]);
                    }
                }
                assert(ks@.take(i + 1) =~= ks@.take(i as int).push(k));
                let t0 = ks@.take(i as int);
                let t1 = ks@.take(i + 1);
                assert forall|x: (ChainKey, AccountId)| #[trigger] t1.contains(x) <==> (t0.contains(x) || x == k) by {
                    if t1.contains(x) {
                        let j = choose|j: int| 0 <= j < t1.len() && t1[j] == x;
                        if j < i {
                            assert(t0[j] == x);
                        }
                    }
                    if t0.contains(x) {
                        let j = choose|j: int| 0 <= j < t0.len() && t0[j] == x;
                        assert(t1[j] == x);
                    }
                    if x == k {
                        assert(t1[i as int] == x);
                    }
                }
                assert(self.attestors@ =~= all_idle(a0, t1));
                assert(ids.take(i + 1).drop_last() =~= ids.take(i as int));
                assert(evs.take(i + 1) =~= evs.take(i as int).push(Event::AttestorChilled(k.0, k.1)));
                assert forall|c: ChainKey| c != chain_key implies #[trigger] self.active_of(c) == old(self).active_of(c) by {
                    assert(before.active_of(c) == old(self).active_of(c));
                }
            }
            i = i + 1;
        }
        proof {
            assert(ks@.take(ks@.len() as int) =~= ks@);
            assert(ids.take(ids.len() as int) =~= ids);
            assert(evs.take(evs.len() as int) =~= evs);
        }
    }
}

impl AttestationPallet {
    /// What clearing the attestation state of a removed chain does: `pre` becomes `post`
    /// and the events `e0` become `e1`.
    pub open spec fn chain_removed_effect(pre: AttestationPallet, post: AttestationPallet, e0: Seq<Event>, e1: Seq<Event>, chain_key: ChainKey, remove_checkpoints: bool) -> bool {
        &&& (({
                let ks = pre.attestors.chain_order(chain_key);
                let p = pre.params_of(chain_key);
                let chilled = ks.map_values(|k: (ChainKey, AccountId)| Event::AttestorChilled(k.0, k.1));
                let st = pre.store;
                let batch = MAX_CHECKPOINTS_CLEARED_PER_BLOCK as u64;
                let more_cps = st.checkpoints.chain_order(chain_key).len() > batch;
                let more_buckets = st.checkpoint_buckets.chain_order(chain_key).len() > batch;
                let cleared = if remove_checkpoints && !more_cps {
                    seq![Event::CheckpointsCleared(chain_key)]
                } else {
                    Seq::empty()
                };
                &&& post.attestors@ == all_idle(pre.attestors@, ks)
                &&& !post.active_attestors@.contains_key(chain_key)
                &&& forall|c: ChainKey| c != chain_key ==> #[trigger] post.active_of(c) == pre.active_of(c)
                &&& post.invulnerables@ == pre.invulnerables@.remove_keys(
                    pre.invulnerables.first_of_chain(chain_key, p.max_invulnerables as u64),
                )
                &&& post.params@ == pre.params@.insert(
                    chain_key,
                    removed_chain_params(p, pre.defaults),
                )
                &&& post.store.attestations@ == st.attestations@.remove_keys(
                    st.attestations.first_of_chain(chain_key, (p.checkpoint_interval * 2 + 1) as u64),
                )
                &&& post.store.checkpointing_queues@ == st.checkpointing_queues@.remove(chain_key)
                &&& post.store.attestation_removal_queues@ == st.attestation_removal_queues@.remove(chain_key)
                &&& post.store.last_checkpoint@ == st.last_checkpoint@.remove(chain_key)
                &&& post.store.last_digest@ == st.last_digest@.remove(chain_key)
                &&& post.store.checkpoint_pruning_states@ == st.checkpoint_pruning_states@.remove(chain_key)
                &&& post.pending_intervals@ == pre.pending_intervals@.remove(chain_key)
                &&& post.pending_sample_sizes@ == pre.pending_sample_sizes@.remove(chain_key)
                &&& post.pending_max_catchup@ == pre.pending_max_catchup@.remove(chain_key)
                &&& if remove_checkpoints {
                    &&& post.store.checkpoints@ == st.checkpoints@.remove_keys(
                        st.checkpoints.first_of_chain(chain_key, batch),
                    )
                    &&& post.store.checkpoint_buckets@ == st.checkpoint_buckets@.remove_keys(
                        st.checkpoint_buckets.first_of_chain(chain_key, batch),
                    )
                    &&& post.store.checkpoint_clearing@ == if more_cps {
                        st.checkpoint_clearing@.insert(chain_key, ())
                    } else {
                        st.checkpoint_clearing@
                    }
                    &&& post.store.bucket_clearing@ == if more_buckets {
                        st.bucket_clearing@.insert(chain_key, ())
                    } else {
                        st.bucket_clearing@
                    }
                } else {
                    &&& post.store.checkpoints == st.checkpoints
                    &&& post.store.checkpoint_buckets == st.checkpoint_buckets
                    &&& post.store.checkpoint_clearing == st.checkpoint_clearing
                    &&& post.store.bucket_clearing == st.bucket_clearing
                }
                &&& e1 == e0 + chilled + cleared + seq![
                    Event::ClearedStorageForRemovedChain(chain_key),
                ]
            }))
        &&& (post.defaults == pre.defaults)
        &&& (post.constants == pre.constants)
        &&& (post.attestors_count == pre.attestors_count)
        &&& (post.authorized == pre.authorized)
        &&& (post.ledgers == pre.ledgers)
        &&& (post.retired_keys == pre.retired_keys)
        &&& (post.retired_by_stash == pre.retired_by_stash)
        &&& (post.bls_key_owner == pre.bls_key_owner)
    }

    /// Clears what the attestation pallet keeps for a chain that is no longer
    /// supported: its attestors are chilled, its active set, invulnerables (up to the
    /// chain's maximum), per-chain parameters, up to twice the checkpoint interval plus
    /// one of its attestations, its queues, last checkpoint and digest, pending updates
    /// and pruning go. With `remove_checkpoints`, a first batch of its checkpoints and
    /// bucket entries goes too, the rest being cleared block by block.
    pub fn on_supported_chain_removed(&mut self, chain_key: ChainKey, remove_checkpoints: bool, events: &mut Vec<Event>)
        requires
            old(self).wf(),
        ensures
            final(self).wf(),
            Self::chain_removed_effect(*old(self), *final(self), old(events)@, final(events)@, chain_key, remove_checkpoints),
    {
        let p = self.params_for(chain_key);
        self.chill_all_attestors_for_chain(chain_key, events);
        let ghost e1 = events@;
        let ghost chilled_state = *self;
        let _ = self.active_attestors.remove(&chain_key);
        let _ = self.invulnerables.remove_first_of_chain(chain_key, p.max_invulnerables as u64);
        let d = self.defaults;
        self.params.insert(
            chain_key,
            ChainParams {
                attestation_interval: d.attestation_interval,
                checkpoint_interval: d.checkpoint_interval,
                retention: p.retention,
                target_sample_size: d.target_sample_size,
                max_attestors: d.max_attestors,
                max_invulnerables: d.max_invulnerables,
                min_bond: p.min_bond,
                genesis_block_number: p.genesis_block_number,
                election_policy: p.election_policy,
                max_catchup: d.max_catchup,
            },
        );
        let limit: u64 = (p.checkpoint_interval as u64) * 2 + 1;
        let _ = self.store.attestations.remove_first_of_chain(chain_key, limit);
        let _ = self.store.checkpointing_queues.remove(&chain_key);
        let _ = self.store.attestation_removal_queues.remove(&chain_key);
        let _ = self.store.last_checkpoint.remove(&chain_key);
        let _ = self.store.last_digest.remove(&chain_key);
        let _ = self.pending_sample_sizes.remove(&chain_key);
        let _ = self.pending_intervals.remove(&chain_key);
        let _ = self.pending_max_catchup.remove(&chain_key);
        if remove_checkpoints {
            let batch = MAX_CHECKPOINTS_CLEARED_PER_BLOCK as u64;
            let more = self.store.checkpoints.remove_first_of_chain(chain_key, batch);
            if more {
                self.store.checkpoint_clearing.insert(chain_key, ());
            } else {
                events.push(Event::CheckpointsCleared(chain_key));
            }
            let more_buckets = self.store.checkpoint_buckets.remove_first_of_chain(chain_key, batch);
            if more_buckets {
                self.store.bucket_clearing.insert(chain_key, ());
            }
        }
        let _ = self.store.checkpoint_pruning_states.remove(&chain_key);
        events.push(Event::ClearedStorageForRemovedChain(chain_key));
        proof {
            let cleared = if remove_checkpoints && !(old(self).store.checkpoints.chain_order(chain_key).len()
                > MAX_CHECKPOINTS_CLEARED_PER_BLOCK as u64) {
                seq![Event::CheckpointsCleared(chain_key)]
            } else {
                Seq::empty()
            };
            assert(events@ =~= e1 + cleared + seq![Event::ClearedStorageForRemovedChain(chain_key)]);
            assert forall|c: ChainKey| c != chain_key implies #[trigger] self.active_of(c) == old(self).active_of(c) by {
                assert(chilled_state.active_of(c) == old(self).active_of(c));
            }
        }
    }
}

/// Whether a retired pair `(chain, controller)` belongs to a chain other than `c`.
pub open spec fn off_chain(c: ChainKey) -> spec_fn((ChainKey, AccountId)) -> bool {
    |p: (ChainKey, AccountId)| p.0 != c
}

/// The pairs of `v` that belong to a chain other than `c`, in order.
fn pairs_off_chain(v: &Vec<(ChainKey, AccountId)>, c: ChainKey) -> (r: Vec<(ChainKey, AccountId)>)
    ensures
        r@ == v@.filter(off_chain(c)),
{
    let mut r: Vec<(ChainKey, AccountId)> = Vec::new();
    let mut i: usize = 0;
    proof {
        reveal(Seq::filter);
        assert(v@.take(0).filter(off_chain(c)) =~= Seq::<(ChainKey, AccountId)>::empty());
    }
    while i < v.len()
        invariant
            i <= v@.len(),
            r@ == v@.take(i as int).filter(off_chain(c)),
        decreases v@.len() - i,
    {
        let x = v[i];
        proof {
            assert(v@.take(i + 1) =~= v@.take(i as int).push(x));
            v@.take(i as int).lemma_filter_push(x, off_chain(c));
        }
        if x.0 != c {
            r.push(x);
        }
        i = i + 1;
    }
    proof {
        assert(v@.take(v@.len() as int) =~= v@);
    }
    r
}

impl AttestationPallet {
    /// Drops the pairs of chain `chain_key` from every stash's retired keys; a stash
    /// that had some and is left with none loses its entry.
    pub fn purge_retired_keys_by_stash_for_removed_chain(&mut self, chain_key: ChainKey)
        requires
            old(self).wf(),
        ensures
            final(self).wf(),
            forall|s: AccountId| #[trigger] final(self).retired_by_stash@.contains_key(s) <==> (
                old(self).retired_by_stash@.contains_key(s) && (old(self).retired_pairs_of(s).filter(
                    off_chain(chain_key),
                ).len() > 0 || old(self).retired_pairs_of(s).len() == 0)),
            forall|s: AccountId| #[trigger] final(self).retired_pairs_of(s) == old(self).retired_pairs_of(s).filter(
                off_chain(chain_key),
            ),
            final(self).same_config_and_store(*old(self)),
            final(self).attestors == old(self).attestors,
            final(self).attestors_count == old(self).attestors_count,
            final(self).active_attestors == old(self).active_attestors,
            final(self).invulnerables == old(self).invulnerables,
            final(self).authorized == old(self).authorized,
            final(self).ledgers == old(self).ledgers,
            final(self).retired_keys == old(self).retired_keys,
            final(self).bls_key_owner == old(self).bls_key_owner,
    {
        let stashes = self.retired_by_stash.keys();
        let ghost m0 = self.retired_by_stash@;
        let ghost p = off_chain(chain_key);
        let mut i: usize = 0;
        while i < stashes.len()
            invariant
                self.wf(),
                i <= stashes@.len(),
                stashes@.no_duplicates(),
                forall|k: AccountId| #[trigger] stashes@.contains(k) <==> m0.contains_key(k),
                m0 == old(self).retired_by_stash@,
                p == off_chain(chain_key),
                forall|s: AccountId| #[trigger] self.retired_by_stash@.contains_key(s) <==> (m0.contains_key(s) && (
                    !stashes@.take(i as int).contains(s) || old(self).retired_pairs_of(s).filter(p).len() > 0
                    || old(self).retired_pairs_of(s).len() == 0)),
                forall|s: AccountId| #[trigger] self.retired_pairs_of(s) == if stashes@.take(i as int).contains(s) {
                    old(self).retired_pairs_of(s).filter(p)
                } else {
                    old(self).retired_pairs_of(s)
                },
                self.same_config_and_store(*old(self)),
                self.attestors == old(self).attestors,
                self.attestors_count == old(self).attestors_count,
                self.active_attestors == old(self).active_attestors,
                self.invulnerables == old(self).invulnerables,
                self.authorized == old(self).authorized,
                self.ledgers == old(self).ledgers,
                self.retired_keys == old(self).retired_keys,
                self.bls_key_owner == old(self).bls_key_owner,
            decreases stashes@.len() - i,
        {
            let s = stashes[i];
            proof {
                assert(!stashes@.take(i as int).contains(s)) by {
                    if stashes@.take(i as int).contains(s) {
                        let t = choose|t: int| 0 <= t < i && #[trigger] stashes@.take(i as int)[t] == s;
                        assert(stashes@[t] == stashes@[i as int]);
                    }
                }
                assert(stashes@.contains(s)) by {
                    assert(stashes@[i as int] == s);
                }
                assert forall|x: AccountId| #[trigger] stashes@.take(i + 1).contains(x) <==> (stashes@.take(
                    i as int,
                ).contains(x) || x == s) by {
                    let ti = stashes@.take(i as int);
                    let tj = stashes@.take(i + 1);
                    if tj.contains(x) {
                        let t = choose|t: int| 0 <= t < i + 1 && #[trigger] tj[t] == x;
                        if t < i {
                            assert(ti[t] == x);
                        }
                    }
                    if ti.contains(x) {
                        let t = choose|t: int| 0 <= t < i && #[trigger] ti[t] == x;
                        assert(tj[t] == x);
                    }
                    if x == s {
                        assert(tj[i as int] == x);
                    }
                }
            }
            let ghost before = *self;
            let cur = match self.retired_by_stash.get(&s) {
                Some(v) => Some(pairs_off_chain(v, chain_key)),
                None => None,
            };
            proof {
                assert(before.retired_pairs_of(s) == old(self).retired_pairs_of(s));
            }
            match cur {
                None => {},
                Some(f) => {
                    let n = match self.retired_by_stash.get(&s) {
                        Some(v) => v.len(),
                        None => 0,
                    };
                    if f.len() == n {
                        proof {
                            let v = before.retired_pairs_of(s);
                            assert forall|j: int| 0 <= j < v.len() implies p(#[trigger] v[j]) by {
                                lemma_filter_full(v, p, j);
                            }
                            crate::keymap::lemma_filter_keeps_all(v, p);
                        }
                    } else if f.len() == 0 {
                        let _ = self.retired_by_stash.remove(&s);
                    } else {
                        self.retired_by_stash.insert(s, f);
                    }
                },
            }
            proof {
                assert forall|x: AccountId| x != s implies #[trigger] self.retired_pairs_of(x) == before.retired_pairs_of(x)
                    && (self.retired_by_stash@.contains_key(x) == before.retired_by_stash@.contains_key(x)) by {}
                if !before.retired_by_stash@.contains_key(s) {
                    reveal(Seq::filter);
                    assert(old(self).retired_pairs_of(s).filter(p) =~= Seq::<(ChainKey, AccountId)>::empty());
                }
            }
            i = i + 1;
        }
        proof {
            assert(stashes@.take(stashes@.len() as int) =~= stashes@);
            assert forall|s: AccountId| #[trigger] self.retired_pairs_of(s) == old(self).retired_pairs_of(s).filter(p) by {
                if !stashes@.contains(s) {
                    assert(!m0.contains_key(s));
                    reveal(Seq::filter);
                    assert(old(self).retired_pairs_of(s).filter(p) =~= Seq::<(ChainKey, AccountId)>::empty());
                }
            }
        }
    }
}

/// A filter that keeps as many elements as it is given keeps each of them.
proof fn lemma_filter_full<A>(s: Seq<A>, p: spec_fn(A) -> bool, j: int)
    requires
        s.filter(p).len() == s.len(),
        0 <= j < s.len(),
    ensures
        p(s[j]),
    decreases s.len(),
{
    reveal(Seq::filter);
    let t = s.drop_last();
    t.lemma_filter_len(p);
    if p(s.last()) {
        if j < s.len() - 1 {
            lemma_filter_full(t, p, j);
        }
    } else {
        assert(s.filter(p) == t.filter(p));
    }
}

} // verus!
