//! The attestation pallet's genesis: per-chain parameters, invulnerables and
//! initial checkpoints.

use vstd::prelude::*;

use crate::attestation::model::AttestationCheckpoint;
use crate::attestation::pallet::{AttestationPallet, ChainParams};
use crate::attestation::store::{with_bucket_entries, with_checkpoints, ChainStore};
use crate::keymap::KeyMap;
use crate::types::{AccountId, BlsPublicKey, ChainKey, Digest};

verus! {

/// The genesis settings of one attested chain.
pub struct AttestationChainConfiguration {
    pub chain_key: ChainKey,
    pub target_sample_size: u32,
    pub attestation_interval: u64,
    pub attestations_per_checkpoint: u32,
    /// Checkpoints the chain starts from.
    pub checkpoints: Vec<AttestationCheckpoint>,
}

/// The attestation pallet's genesis settings.
pub struct GenesisConfig {
    /// Invulnerable attestors of every configured chain, with their BLS keys.
    pub invulnerables: Vec<(AccountId, BlsPublicKey)>,
    pub attestation_chain_configurations: Vec<AttestationChainConfiguration>,
}

/// Parameters `p` with the settings of `cfg` and `max` attestors and invulnerables.
pub open spec fn configured_params(p: ChainParams, cfg: AttestationChainConfiguration, max: u32) -> ChainParams {
    ChainParams {
        attestation_interval: cfg.attestation_interval,
        checkpoint_interval: cfg.attestations_per_checkpoint,
        retention: p.retention,
        target_sample_size: cfg.target_sample_size,
        max_attestors: max,
        max_invulnerables: max,
        min_bond: p.min_bond,
        genesis_block_number: p.genesis_block_number,
        election_policy: p.election_policy,
        max_catchup: p.max_catchup,
    }
}

/// The per-chain parameters after configuring the chains `cfgs` in order, from
/// `params` (a chain without an entry having `defaults`).
pub open spec fn genesis_params(
    params: Map<ChainKey, ChainParams>,
    defaults: ChainParams,
    cfgs: Seq<AttestationChainConfiguration>,
    max: u32,
) -> Map<ChainKey, ChainParams>
    decreases cfgs.len(),
{
    if cfgs.len() == 0 {
        params
    } else {
        let m = genesis_params(params, defaults, cfgs.drop_last(), max);
        let c = cfgs.last();
        let base = if m.contains_key(c.chain_key) {
            m[c.chain_key]
        } else {
            defaults
        };
        m.insert(c.chain_key, configured_params(base, c, max))
    }
}

/// `m` with the accounts of `invs` made invulnerable on `chain_key`.
pub open spec fn with_invulnerables(
    m: Map<(ChainKey, AccountId), ()>,
    chain_key: ChainKey,
    invs: Seq<(AccountId, BlsPublicKey)>,
) -> Map<(ChainKey, AccountId), ()>
    decreases invs.len(),
{
    if invs.len() == 0 {
        m
    } else {
        with_invulnerables(m, chain_key, invs.drop_last()).insert((chain_key, invs.last().0), ())
    }
}

/// The invulnerables after making `invs` invulnerable on each chain of `cfgs`.
pub open spec fn genesis_invulnerables(
    m: Map<(ChainKey, AccountId), ()>,
    cfgs: Seq<AttestationChainConfiguration>,
    invs: Seq<(AccountId, BlsPublicKey)>,
) -> Map<(ChainKey, AccountId), ()>
    decreases cfgs.len(),
{
    if cfgs.len() == 0 {
        m
    } else {
        with_invulnerables(genesis_invulnerables(m, cfgs.drop_last(), invs), cfgs.last().chain_key, invs)
    }
}

/// The checkpoints after storing those of each chain of `cfgs`.
pub open spec fn genesis_checkpoints(
    m: Map<(ChainKey, u64), Digest>,
    cfgs: Seq<AttestationChainConfiguration>,
) -> Map<(ChainKey, u64), Digest>
    decreases cfgs.len(),
{
    if cfgs.len() == 0 {
        m
    } else {
        with_checkpoints(genesis_checkpoints(m, cfgs.drop_last()), cfgs.last().chain_key, cfgs.last().checkpoints@)
    }
}

/// The bucket index after indexing the checkpoints of each chain of `cfgs`.
pub open spec fn genesis_buckets(
    m: Map<(ChainKey, u64, u64), ()>,
    cfgs: Seq<AttestationChainConfiguration>,
) -> Map<(ChainKey, u64, u64), ()>
    decreases cfgs.len(),
{
    if cfgs.len() == 0 {
        m
    } else {
        with_bucket_entries(genesis_buckets(m, cfgs.drop_last()), cfgs.last().chain_key, cfgs.last().checkpoints@)
    }
}

/// The checkpoint of `cps` with the highest block number, the last such one.
pub open spec fn latest_highest(cps: Seq<AttestationCheckpoint>) -> Option<AttestationCheckpoint>
    decreases cps.len(),
{
    if cps.len() == 0 {
        None
    } else {
        match latest_highest(cps.drop_last()) {
            Some(m) => if cps.last().block_number >= m.block_number {
                Some(cps.last())
            } else {
                Some(m)
            },
            None => Some(cps.last()),
        }
    }
}

/// The last checkpoints after configuring the chains `cfgs`: each chain with
/// checkpoints gets its highest one.
pub open spec fn genesis_last_checkpoints(
    m: Map<ChainKey, AttestationCheckpoint>,
    cfgs: Seq<AttestationChainConfiguration>,
) -> Map<ChainKey, AttestationCheckpoint>
    decreases cfgs.len(),
{
    if cfgs.len() == 0 {
        m
    } else {
        let prev = genesis_last_checkpoints(m, cfgs.drop_last());
        match latest_highest(cfgs.last().checkpoints@) {
            Some(c) => prev.insert(cfgs.last().chain_key, c),
            None => prev,
        }
    }
}

/// Makes the accounts of `invs` invulnerable on `chain_key`.
fn add_invulnerables(m: &mut KeyMap<(ChainKey, AccountId), ()>, chain_key: ChainKey, invs: &Vec<(AccountId, BlsPublicKey)>)
    requires
        old(m).wf(),
    ensures
        final(m).wf(),
        final(m)@ == with_invulnerables(old(m)@, chain_key, invs@),
{
    let ghost m0 = m@;
    let mut j: usize = 0;
    while j < invs.len()
        invariant
            m.wf(),
            j <= invs@.len(),
            m@ == with_invulnerables(m0, chain_key, invs@.take(j as int)),
        decreases invs@.len() - j,
    {
        m.insert((chain_key, invs[j].0), ());
        proof {
            assert(invs@.take(j + 1).drop_last() =~= invs@.take(j as int));
        }
        j = j + 1;
    }
    proof {
        assert(invs@.take(invs@.len() as int) =~= invs@);
    }
}

/// Stores the checkpoints `cps` of `chain_key` and their bucket entries; returns the
/// highest of them (the last of equal ones).
fn add_checkpoints(
    checkpoints: &mut KeyMap<(ChainKey, u64), Digest>,
    buckets: &mut KeyMap<(ChainKey, u64, u64), ()>,
    chain_key: ChainKey,
    cps: &Vec<AttestationCheckpoint>,
) -> (last: Option<AttestationCheckpoint>)
    requires
        old(checkpoints).wf(),
        old(buckets).wf(),
    ensures
        final(checkpoints).wf(),
        final(buckets).wf(),
        final(checkpoints)@ == with_checkpoints(old(checkpoints)@, chain_key, cps@),
        final(buckets)@ == with_bucket_entries(old(buckets)@, chain_key, cps@),
        last == latest_highest(cps@),
{
    let ghost cp0 = checkpoints@;
    let ghost bk0 = buckets@;
    let mut last: Option<AttestationCheckpoint> = None;
    let mut k: usize = 0;
    while k < cps.len()
        invariant
            checkpoints.wf(),
            buckets.wf(),
            k <= cps@.len(),
            checkpoints@ == with_checkpoints(cp0, chain_key, cps@.take(k as int)),
            buckets@ == with_bucket_entries(bk0, chain_key, cps@.take(k as int)),
            last == latest_highest(cps@.take(k as int)),
        decreases cps@.len() - k,
    {
        let c = cps[k];
        checkpoints.insert((chain_key, c.block_number), c.digest);
        let pivot = ChainStore::compute_block_index_for(c.block_number);
        buckets.insert((chain_key, pivot, c.block_number), ());
        let replace = match last {
            None => true,
            Some(lc) => c.block_number >= lc.block_number,
        };
        if replace {
            last = Some(c);
        }
        proof {
            assert(cps@.take(k + 1).drop_last() =~= cps@.take(k as int));
        }
        k = k + 1;
    }
    proof {
        assert(cps@.take(cps@.len() as int) =~= cps@);
    }
    last
}

impl GenesisConfig {
    /// Configures each chain in order: its sample size, attestation and checkpoint
    /// intervals, `max_attestation_nodes` attestors and invulnerables, the genesis
    /// invulnerables, its checkpoints with their bucket entries, and its highest
    /// checkpoint (the last of equal ones) as its last checkpoint.
    pub fn build(&self, pallet: &mut AttestationPallet, max_attestation_nodes: u32)
        requires
            old(pallet).wf(),
        ensures
            final(pallet).wf(),
            ({
                let cfgs = self.attestation_chain_configurations@;
                let pre = *old(pallet);
                &&& final(pallet).params@ == genesis_params(pre.params@, pre.defaults, cfgs, max_attestation_nodes)
                &&& final(pallet).invulnerables@ == genesis_invulnerables(
                    pre.invulnerables@,
                    cfgs,
                    self.invulnerables@,
                )
                &&& final(pallet).store.checkpoints@ == genesis_checkpoints(pre.store.checkpoints@, cfgs)
                &&& final(pallet).store.checkpoint_buckets@ == genesis_buckets(pre.store.checkpoint_buckets@, cfgs)
                &&& final(pallet).store.last_checkpoint@ == genesis_last_checkpoints(pre.store.last_checkpoint@, cfgs)
                &&& final(pallet).store.attestations == pre.store.attestations
                &&& final(pallet).store.checkpointing_queues == pre.store.checkpointing_queues
                &&& final(pallet).store.last_digest == pre.store.last_digest
                &&& final(pallet).store.attestation_removal_queues == pre.store.attestation_removal_queues
                &&& final(pallet).store.checkpoint_clearing == pre.store.checkpoint_clearing
                &&& final(pallet).store.bucket_clearing == pre.store.bucket_clearing
                &&& final(pallet).store.checkpoint_pruning_states == pre.store.checkpoint_pruning_states
                &&& final(pallet).defaults == pre.defaults
                &&& final(pallet).constants == pre.constants
                &&& final(pallet).attestors == pre.attestors
                &&& final(pallet).attestors_count == pre.attestors_count
                &&& final(pallet).active_attestors == pre.active_attestors
                &&& final(pallet).authorized == pre.authorized
                &&& final(pallet).ledgers == pre.ledgers
                &&& final(pallet).retired_keys == pre.retired_keys
                &&& final(pallet).retired_by_stash == pre.retired_by_stash
                &&& final(pallet).bls_key_owner == pre.bls_key_owner
                &&& final(pallet).pending_intervals == pre.pending_intervals
                &&& final(pallet).pending_sample_sizes == pre.pending_sample_sizes
                &&& final(pallet).pending_max_catchup == pre.pending_max_catchup
            }),
    {
        let cfgs = &self.attestation_chain_configurations;
        let invs = &self.invulnerables;
        let ghost pre = *pallet;
        let mut i: usize = 0;
        while i < cfgs.len()
            invariant
                pallet.wf(),
                i <= cfgs@.len(),
                pallet.params@ == genesis_params(pre.params@, pre.defaults, cfgs@.take(i as int), max_attestation_nodes),
                pallet.invulnerables@ == genesis_invulnerables(pre.invulnerables@, cfgs@.take(i as int), invs@),
                pallet.store.checkpoints@ == genesis_checkpoints(pre.store.checkpoints@, cfgs@.take(i as int)),
                pallet.store.checkpoint_buckets@ == genesis_buckets(pre.store.checkpoint_buckets@, cfgs@.take(i as int)),
                pallet.store.last_checkpoint@ == genesis_last_checkpoints(
                    pre.store.last_checkpoint@,
                    cfgs@.take(i as int),
                ),
                pallet.store.attestations == pre.store.attestations,
                pallet.store.checkpointing_queues == pre.store.checkpointing_queues,
                pallet.store.last_digest == pre.store.last_digest,
                pallet.store.attestation_removal_queues == pre.store.attestation_removal_queues,
                pallet.store.checkpoint_clearing == pre.store.checkpoint_clearing,
                pallet.store.bucket_clearing == pre.store.bucket_clearing,
                pallet.store.checkpoint_pruning_states == pre.store.checkpoint_pruning_states,
                pallet.defaults == pre.defaults,
                pallet.constants == pre.constants,
                pallet.attestors == pre.attestors,
                pallet.attestors_count == pre.attestors_count,
                pallet.active_attestors == pre.active_attestors,
                pallet.authorized == pre.authorized,
                pallet.ledgers == pre.ledgers,
                pallet.retired_keys == pre.retired_keys,
                pallet.retired_by_stash == pre.retired_by_stash,
                pallet.bls_key_owner == pre.bls_key_owner,
                pallet.pending_intervals == pre.pending_intervals,
                pallet.pending_sample_sizes == pre.pending_sample_sizes,
                pallet.pending_max_catchup == pre.pending_max_catchup,
            decreases cfgs@.len() - i,
        {
            let cfg = &cfgs[i];
            let ck = cfg.chain_key;
            let ghost t = cfgs@.take(i as int);
            let ghost t1 = cfgs@.take(i + 1);
            proof {
                assert(t1.drop_last() =~= t);
                assert(t1.last() == *cfg);
            }
            let base = pallet.params_for(ck);
            pallet.params.insert(
                ck,
                ChainParams {
                    attestation_interval: cfg.attestation_interval,
                    checkpoint_interval: cfg.attestations_per_checkpoint,
                    retention: base.retention,
                    target_sample_size: cfg.target_sample_size,
                    max_attestors: max_attestation_nodes,
                    max_invulnerables: max_attestation_nodes,
                    min_bond: base.min_bond,
                    genesis_block_number: base.genesis_block_number,
                    election_policy: base.election_policy,
                    max_catchup: base.max_catchup,
                },
            );
            add_invulnerables(&mut pallet.invulnerables, ck, invs);
            let last = add_checkpoints(&mut pallet.store.checkpoints, &mut pallet.store.checkpoint_buckets, ck, &cfg.checkpoints);
            match last {
                Some(c) => {
                    pallet.store.last_checkpoint.insert(ck, c);
                },
                None => {},
            }
            i = i + 1;
        }
        proof {
            assert(cfgs@.take(cfgs@.len() as int) =~= cfgs@);
        }
    }
}

} // verus!
