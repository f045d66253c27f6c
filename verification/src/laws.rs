//! Properties that span several operations of the library.

use vstd::prelude::*;

use crate::attestation::maintenance::{prune_pass, sat_add_u64};
use crate::attestation::model::{
    AttestationCheckpoint, Attestor, AttestorElectionPolicy, AttestorStatus, CheckpointPruningState, Event, RuntimeAction,
    SignedAttestation,
};
use crate::attestation::registry::{elect_fold, election_result, pool_sync};
use crate::ledger::{chunks_sum, lemma_chunks_sum_nonneg, lemma_chunks_sum_push, lemma_released_split, released_sum, AttestorLedger, UnlockChunk};
use crate::keymap::pivot_filter;
use crate::attestation::pallet::{commit_effect, recorded, AttestationPallet, ChainParams};
use crate::attestation::store::{
    continuity_check, catchup_effect, catchup_plan, checkpoint_decision, checkpoint_effect, checkpoint_scan, checkpoint_target,
    checkpoint_width, is_duplicate, ChainStore,
};
use crate::randomness::{lowest_key, stored, Randomness};
use crate::rewards::{claim_committed, claim_undone, credits_of, RewardsPallet};
use crate::prover::{expected_block, first_checkpoint_with_digest, ProverPallet, VerifierOutput};
use crate::keymap::chain_filter;
use crate::types::{AccountId, Balance, ChainKey, ChainId, Digest};

verus! {

/// Committing a claim and then undoing it leaves every account's accrued points and
/// claim nonce as they were.
pub proof fn law_claim_undo_restores(
    pre: RewardsPallet,
    mid: RewardsPallet,
    post: RewardsPallet,
    stash: AccountId,
    nonce: u64,
    amount: u128,
)
    requires
        pre.wf(),
        pre.nonce_view(stash) == nonce,
        nonce < u64::MAX,
        pre.accrued_view(stash) >= amount,
        claim_committed(pre, mid, stash, nonce, amount),
        claim_undone(mid, post, stash, nonce, amount),
    ensures
        forall|s: AccountId| #[trigger] post.accrued_view(s) == pre.accrued_view(s),
        forall|s: AccountId| #[trigger] post.nonce_view(s) == pre.nonce_view(s),
{
}

/// A committed claim spends its nonce: the stash's next nonce is the following one, so
/// the same nonce is refused afterwards.
pub proof fn law_claim_nonce_spent(pre: RewardsPallet, post: RewardsPallet, stash: AccountId, nonce: u64, amount: u128)
    requires
        nonce < u64::MAX,
        claim_committed(pre, post, stash, nonce, amount),
    ensures
        post.nonce_view(stash) == nonce + 1,
        post.nonce_view(stash) != nonce,
{
}

/// The randomness store never holds more than its maximum number of epochs, and (with
/// room for one) always holds the randomness just recorded.
pub proof fn law_randomness_bounded(m: Map<u64, Randomness>, max: u32, epoch: u64, r: Randomness)
    requires
        m.dom().finite(),
        m.dom().len() <= max,
    ensures
        stored(m, max, epoch, r).dom().finite(),
        stored(m, max, epoch, r).dom().len() <= max,
        max > 0 ==> stored(m, max, epoch, r).contains_key(epoch) && stored(m, max, epoch, r)[epoch] == r,
{
    let m1 = if m.dom().len() >= max && m.dom().len() > 0 {
        m.remove(lowest_key(m))
    } else {
        m
    };
    if m.dom().len() >= max && m.dom().len() > 0 {
        let k = lowest_key(m);
        let x = m.dom().choose();
        assert(m.contains_key(x));
        assert(exists|k: u64| m.contains_key(k) && forall|j: u64| #[trigger] m.contains_key(j) ==> k <= j) by {
            lemma_has_lowest(m.dom());
        }
        assert(m.contains_key(k));
        assert(m1.dom() == m.dom().remove(k));
        assert(m1.dom().len() == m.dom().len() - 1);
    }
    if m1.dom().len() < max || m1.contains_key(epoch) {
        assert(m1.insert(epoch, r).dom() == m1.dom().insert(epoch));
    }
}

/// Recording the randomness of an epoch newer than every kept one keeps it, and the
/// store grows by one entry until it is full; once full, exactly the oldest kept epoch
/// leaves and every other entry stays.
pub proof fn law_store_evicts_oldest(m: Map<u64, Randomness>, max: u32, epoch: u64, r: Randomness)
    requires
        m.dom().finite(),
        max > 0,
        m.dom().len() <= max,
        forall|k: u64| #[trigger] m.contains_key(k) ==> k < epoch,
    ensures
        stored(m, max, epoch, r).contains_key(epoch),
        stored(m, max, epoch, r)[epoch] == r,
        stored(m, max, epoch, r).dom().len() == if m.dom().len() < max {
            m.dom().len() + 1
        } else {
            max as nat
        },
        m.dom().len() < max ==> stored(m, max, epoch, r) == m.insert(epoch, r),
        m.dom().len() == max ==> {
            &&& m.contains_key(lowest_key(m))
            &&& forall|j: u64| #[trigger] m.contains_key(j) ==> lowest_key(m) <= j
            &&& stored(m, max, epoch, r) == m.remove(lowest_key(m)).insert(epoch, r)
        },
{
    assert(!m.contains_key(epoch));
    if m.dom().len() >= max {
        let k = lowest_key(m);
        assert(m.dom().len() > 0);
        assert(exists|k: u64| m.contains_key(k) && forall|j: u64| #[trigger] m.contains_key(j) ==> k <= j) by {
            lemma_has_lowest(m.dom());
        }
        assert(m.contains_key(k));
        let m1 = m.remove(k);
        assert(m1.dom() == m.dom().remove(k));
        assert(m1.dom().len() == m.dom().len() - 1);
        assert(!m1.contains_key(epoch));
        assert(m1.insert(epoch, r).dom() == m1.dom().insert(epoch));
    } else {
        assert(m.insert(epoch, r).dom() == m.dom().insert(epoch));
    }
}

/// A finite non-empty set of numbers has a least element.
proof fn lemma_has_lowest(s: Set<u64>)
    requires
        s.finite(),
        s.len() > 0,
    ensures
        exists|k: u64| s.contains(k) && forall|j: u64| #[trigger] s.contains(j) ==> k <= j,
    decreases s.len(),
{
    let x = s.choose();
    assert(s.contains(x)) by {
        vstd::set_lib::lemma_set_empty_equivalency_len(s);
    }
    let t = s.remove(x);
    if t.len() == 0 {
        assert forall|j: u64| #[trigger] s.contains(j) implies x <= j by {
            if j != x {
                assert(t.contains(j));
                vstd::set_lib::lemma_set_empty_equivalency_len(t);
            }
        }
    } else {
        lemma_has_lowest(t);
        let k = choose|k: u64| t.contains(k) && forall|j: u64| #[trigger] t.contains(j) ==> k <= j;
        if x < k {
            assert forall|j: u64| #[trigger] s.contains(j) implies x <= j by {
                if j != x {
                    assert(t.contains(j));
                }
            }
        } else {
            assert forall|j: u64| #[trigger] s.contains(j) implies k <= j by {
                if j != x {
                    assert(t.contains(j));
                }
            }
        }
    }
}

/// A checkpoint made from the checkpointing queue lies on the block that walking the
/// queue aimed at.
proof fn lemma_scan_hits_target(
    atts: Map<(ChainKey, Digest), SignedAttestation>,
    chain_key: ChainKey,
    queue: Seq<Digest>,
    target: int,
    i: int,
)
    requires
        checkpoint_scan(atts, chain_key, queue, target, i) is Ok,
    ensures
        checkpoint_scan(atts, chain_key, queue, target, i)->Ok_0.1.block_number == target,
    decreases queue.len() - i,
{
    if 0 <= i < queue.len() && atts.contains_key((chain_key, queue[i])) && atts[(chain_key, queue[i])].header_number
        < target {
        lemma_scan_hits_target(atts, chain_key, queue, target, i + 1);
    }
}

/// Checkpoints land on multiples of the checkpoint width (the attestation interval
/// times the attestations per checkpoint), each above the previous checkpoint.
pub proof fn law_checkpoint_on_boundary(
    atts: Map<(ChainKey, Digest), SignedAttestation>,
    last: AttestationCheckpoint,
    chain_key: ChainKey,
    queue: Seq<Digest>,
    header: u64,
    attestation_interval: u64,
    checkpoint_interval: u32,
)
    requires
        checkpoint_decision(atts, Some(last), chain_key, queue, header, attestation_interval, checkpoint_interval)
            matches Ok(Some(_)),
        last.block_number + checkpoint_width(attestation_interval, checkpoint_interval) <= u64::MAX,
    ensures
        ({
            let cp = checkpoint_decision(
                atts,
                Some(last),
                chain_key,
                queue,
                header,
                attestation_interval,
                checkpoint_interval,
            )->Ok_0->Some_0.1;
            let w = checkpoint_width(attestation_interval, checkpoint_interval);
            &&& (cp.block_number as int) % w == 0
            &&& cp.block_number > last.block_number
        }),
{
    let w = checkpoint_width(attestation_interval, checkpoint_interval);
    let t = checkpoint_target(last.block_number, w);
    lemma_scan_hits_target(atts, chain_key, queue, t, 0);
    assert(w > 0);
    let n = last.block_number + w;
    assert(t == n - n % w);
    assert((n - n % w) % w == 0) by (nonlinear_arith)
        requires
            w > 0,
    {
        vstd::arithmetic::div_mod::lemma_fundamental_div_mod(n, w);
        vstd::arithmetic::div_mod::lemma_mod_multiples_basic(n / w, w);
    }
    assert(n % w == (last.block_number as int) % w) by {
        vstd::arithmetic::div_mod::lemma_mod_add_multiples_vanish(last.block_number as int, w);
    }
    assert((last.block_number as int) % w < w) by {
        vstd::arithmetic::div_mod::lemma_mod_bound(last.block_number as int, w);
    }
}

/// An attestation the pallet accepts is new: its digest is not stored for its chain,
/// and its block lies above the chain's last checkpoint.
pub proof fn law_accepted_attestation_is_new(p: AttestationPallet, a: SignedAttestation, chain_supported: bool, threshold: u32)
    requires
        p.attestation_verdict(a, chain_supported, threshold) is Ok,
    ensures
        !p.store.attestations@.contains_key((a.chain_key, a.digest)),
        p.store.last_checkpoint@.contains_key(a.chain_key) ==> a.header_number
            > p.store.last_checkpoint@[a.chain_key].block_number,
{
    assert(!is_duplicate(p.store.attestations@, p.store.last_checkpoint@.get(a.chain_key), a));
}

/// Registering a chain and removing it again leaves the index from chain id and name
/// to chain key as it was.
pub proof fn law_register_remove_restores_index(
    index: Map<(ChainId, Seq<u8>), ChainKey>,
    chain_id: ChainId,
    chain_name: Seq<u8>,
    key: ChainKey,
)
    requires
        !index.contains_key((chain_id, chain_name)),
    ensures
        index.insert((chain_id, chain_name), key).remove((chain_id, chain_name)) == index,
{
    assert(index.insert((chain_id, chain_name), key).remove((chain_id, chain_name)) =~= index);
}

/// The pruning that follows a revert removes only bucket entries of the reverted chain
/// whose pivot lies between the pruning state's next pivot and its stop height.
pub proof fn law_prune_stays_in_range(
    keys: Seq<(u64, u64, u64)>,
    c: ChainKey,
    st: CheckpointPruningState,
    entries: nat,
    pivots: nat,
)
    ensures
        forall|j: int|
            0 <= j < prune_pass(keys, c, st, entries, pivots).0.len() ==> {
                let k = #[trigger] prune_pass(keys, c, st, entries, pivots).0[j];
                &&& k.0 == c
                &&& st.next_pivot <= k.1 <= st.stop_height
            },
    decreases pivots,
{
    if entries == 0 || pivots == 0 {
    } else if st.next_pivot > st.stop_height {
    } else {
        let hs = keys.filter(pivot_filter(c, st.next_pivot));
        assert forall|j: int| 0 <= j < hs.len() implies #[trigger] hs[j].0 == c && hs[j].1 == st.next_pivot by {
            keys.lemma_filter_pred(pivot_filter(c, st.next_pivot), j);
        }
        if hs.len() <= entries {
            let next = CheckpointPruningState {
                stop_height: st.stop_height,
                next_pivot: sat_add_u64(st.next_pivot, crate::attestation::store::CHECKPOINT_BUCKET_SIZE),
            };
            let rest_keys = keys.filter(|k: (u64, u64, u64)| !hs.contains(k));
            law_prune_stays_in_range(rest_keys, c, next, (entries - hs.len()) as nat, (pivots - 1) as nat);
            let rest = prune_pass(rest_keys, c, next, (entries - hs.len()) as nat, (pivots - 1) as nat);
            let all = prune_pass(keys, c, st, entries, pivots).0;
            assert(all == hs + rest.0);
            assert forall|j: int| 0 <= j < all.len() implies #[trigger] all[j].0 == c && st.next_pivot <= all[j].1
                <= st.stop_height by {
                if j >= hs.len() {
                    assert(all[j] == rest.0[j - hs.len()]);
                }
            }
        }
    }
}

/// The bond of `stash`: its ledger's total, or nothing without a ledger.
pub open spec fn bond_of(ledgers: Map<AccountId, AttestorLedger>, stash: AccountId) -> int {
    if ledgers.contains_key(stash) {
        ledgers[stash].total_staked as int
    } else {
        0
    }
}

/// What the bond-asset transfer `a` moves into `pool` (negative: out of it).
pub open spec fn action_inflow(a: RuntimeAction, pool: AccountId) -> int {
    match a {
        RuntimeAction::BondTransfer { from, to, amount } => if to == pool && from != pool {
            amount as int
        } else if from == pool && to != pool {
            -(amount as int)
        } else {
            0
        },
        _ => 0,
    }
}

/// What the bond-asset transfers among `actions` move into `pool`, less what they move
/// out of it.
pub open spec fn pool_inflow(actions: Seq<RuntimeAction>, pool: AccountId) -> int
    decreases actions.len(),
{
    if actions.len() == 0 {
        0
    } else {
        pool_inflow(actions.drop_last(), pool) + action_inflow(actions.last(), pool)
    }
}

proof fn lemma_pool_inflow_concat(a: Seq<RuntimeAction>, b: Seq<RuntimeAction>, pool: AccountId)
    ensures
        pool_inflow(a + b, pool) == pool_inflow(a, pool) + pool_inflow(b, pool),
    decreases b.len(),
{
    if b.len() == 0 {
        assert(a + b =~= a);
    } else {
        lemma_pool_inflow_concat(a, b.drop_last(), pool);
        assert((a + b).drop_last() =~= a + b.drop_last());
    }
}

proof fn lemma_inflow_single(a: RuntimeAction, pool: AccountId)
    ensures
        pool_inflow(seq![a], pool) == action_inflow(a, pool),
{
    assert(seq![a].drop_last() =~= Seq::<RuntimeAction>::empty());
    reveal_with_fuel(pool_inflow, 2);
}

proof fn lemma_pool_sync_inflow(stash: AccountId, pool: AccountId, old_total: Balance, new_total: Balance)
    requires
        stash != pool,
    ensures
        pool_inflow(pool_sync(stash, pool, old_total, new_total), pool) == new_total - old_total,
{
    if new_total > old_total {
        lemma_inflow_single(
            RuntimeAction::BondTransfer { from: stash, to: pool, amount: (new_total - old_total) as u128 },
            pool,
        );
    } else if new_total < old_total {
        lemma_inflow_single(
            RuntimeAction::BondTransfer { from: pool, to: stash, amount: (old_total - new_total) as u128 },
            pool,
        );
    }
}

/// A registration moves into the bond pool exactly the growth of its stash's bond, and
/// leaves every other stash's bond as it was: the pool keeps holding the bonds.
pub proof fn law_registration_funds_the_pool(
    pre: AttestationPallet,
    post: AttestationPallet,
    e0: Seq<Event>,
    e1: Seq<Event>,
    chain_key: ChainKey,
    stash: AccountId,
    attestor_id: AccountId,
    chain_supported: bool,
    bondable: Balance,
    stash_free: Balance,
    r: Result<Vec<RuntimeAction>, crate::attestation::model::Error>,
)
    requires
        AttestationPallet::registration_effect(
            pre,
            post,
            e0,
            e1,
            chain_key,
            stash,
            attestor_id,
            chain_supported,
            bondable,
            stash_free,
            r,
        ),
        r is Ok,
        stash != pre.constants.bond_pool,
    ensures
        pool_inflow(r->Ok_0@, pre.constants.bond_pool) == bond_of(post.ledgers@, stash) - bond_of(pre.ledgers@, stash),
        forall|s: AccountId| s != stash ==> #[trigger] bond_of(post.ledgers@, s) == bond_of(pre.ledgers@, s),
{
    let pool = pre.constants.bond_pool;
    let fund = RuntimeAction::NativeTransfer { from: stash, to: attestor_id, amount: pre.constants.attestor_funding };
    lemma_inflow_single(fund, pool);
    let p = pre.params_of(chain_key);
    if pre.ledgers@.contains_key(stash) {
        let l = pre.ledgers@[stash];
        let extra = crate::attestation::registry::extra_bond(l.total_staked, l.active, p.min_bond, stash_free)->Ok_0;
        let sync = pool_sync(stash, pool, l.total_staked, (l.total_staked + extra) as u128);
        lemma_pool_inflow_concat(seq![fund], sync, pool);
        lemma_pool_sync_inflow(stash, pool, l.total_staked, (l.total_staked + extra) as u128);
    } else {
        let sync = pool_sync(stash, pool, 0, p.min_bond);
        let inc = RuntimeAction::IncConsumers(stash);
        lemma_inflow_single(inc, pool);
        lemma_pool_inflow_concat(seq![fund], sync, pool);
        lemma_pool_inflow_concat(seq![fund] + sync, seq![inc], pool);
        lemma_pool_sync_inflow(stash, pool, 0, p.min_bond);
    }
}

/// A withdrawal moves out of the bond pool exactly what its stash's bond shrinks by,
/// and leaves every other stash's bond as it was.
pub proof fn law_withdrawal_drains_the_pool(
    pre: AttestationPallet,
    post: AttestationPallet,
    e0: Seq<Event>,
    e1: Seq<Event>,
    stash: AccountId,
    current_era: u32,
    existential_deposit: Balance,
    r: Result<Vec<RuntimeAction>, crate::attestation::model::Error>,
)
    requires
        AttestationPallet::withdrawal_effect(pre, post, e0, e1, stash, current_era, existential_deposit, r),
        r is Ok,
        stash != pre.constants.bond_pool,
    ensures
        pool_inflow(r->Ok_0@, pre.constants.bond_pool) == bond_of(post.ledgers@, stash) - bond_of(pre.ledgers@, stash),
        forall|s: AccountId| s != stash ==> #[trigger] bond_of(post.ledgers@, s) == bond_of(pre.ledgers@, s),
{
    let pool = pre.constants.bond_pool;
    let l = pre.ledgers@[stash];
    let w = AttestationPallet::withdrawn_totals(l, current_era);
    let killed = w.1.len() == 0 && (l.active < existential_deposit || l.active == 0);
    if killed {
        let dec = RuntimeAction::DecConsumers(stash);
        lemma_inflow_single(dec, pool);
        let back = if l.total_staked != 0 {
            seq![RuntimeAction::BondTransfer { from: pool, to: stash, amount: l.total_staked }]
        } else {
            Seq::empty()
        };
        lemma_pool_inflow_concat(back, seq![dec], pool);
        if l.total_staked != 0 {
            lemma_inflow_single(RuntimeAction::BondTransfer { from: pool, to: stash, amount: l.total_staked }, pool);
        }
        assert forall|s: AccountId| s != stash implies #[trigger] bond_of(post.ledgers@, s) == bond_of(pre.ledgers@, s) by {
            assert(post.ledgers@.contains_key(s) == pre.ledgers@.contains_key(s));
        }
    } else {
        lemma_pool_sync_inflow(stash, pool, l.total_staked, w.0);
        assert forall|s: AccountId| s != stash implies #[trigger] bond_of(post.ledgers@, s) == bond_of(pre.ledgers@, s) by {
            assert(post.ledgers@.contains_key(s) == pre.ledgers@.contains_key(s));
        }
    }
}

/// Every attestor that is not idle (waiting, active or leaving) holds a BLS key.
pub open spec fn keyed(attestors: Map<(ChainKey, AccountId), Attestor>) -> bool {
    forall|k: (ChainKey, AccountId)|
        #[trigger] attestors.contains_key(k) && attestors[k].status != AttestorStatus::Idle
            ==> attestors[k].bls_public_key is Some
}

/// Registering an attestor keeps every non-idle attestor keyed: the new one is idle.
pub proof fn law_registration_keeps_attestors_keyed(
    pre: AttestationPallet,
    post: AttestationPallet,
    e0: Seq<Event>,
    e1: Seq<Event>,
    chain_key: ChainKey,
    stash: AccountId,
    attestor_id: AccountId,
    chain_supported: bool,
    bondable: Balance,
    stash_free: Balance,
    r: Result<Vec<RuntimeAction>, crate::attestation::model::Error>,
)
    requires
        AttestationPallet::registration_effect(
            pre,
            post,
            e0,
            e1,
            chain_key,
            stash,
            attestor_id,
            chain_supported,
            bondable,
            stash_free,
            r,
        ),
        keyed(pre.attestors@),
    ensures
        keyed(post.attestors@),
{
}

/// Registering a BLS key makes its attestor wait for election, with that key.
pub proof fn law_attesting_keeps_attestors_keyed(
    pre: AttestationPallet,
    post: AttestationPallet,
    e0: Seq<Event>,
    e1: Seq<Event>,
    chain_key: ChainKey,
    attestor_id: AccountId,
    key: crate::types::BlsPublicKey,
    proof: Seq<u8>,
    r: Result<(), crate::attestation::model::Error>,
)
    requires
        AttestationPallet::attesting_effect(pre, post, e0, e1, chain_key, attestor_id, key, proof, r),
        keyed(pre.attestors@),
    ensures
        keyed(post.attestors@),
        r is Ok ==> post.attestors@[(chain_key, attestor_id)].status == AttestorStatus::Waiting
            && post.attestors@[(chain_key, attestor_id)].bls_public_key == Some(key),
{
}

/// Setting an attestor idle keeps every non-idle attestor keyed.
pub proof fn law_chill_keeps_attestors_keyed(
    attestors: Map<(ChainKey, AccountId), Attestor>,
    chain_key: ChainKey,
    id: AccountId,
)
    requires
        keyed(attestors),
    ensures
        keyed(AttestationPallet::with_status(attestors, chain_key, id, AttestorStatus::Idle)),
{
}

/// Unregistering an attestor keeps every non-idle attestor keyed.
pub proof fn law_removal_keeps_attestors_keyed(
    pre: AttestationPallet,
    post: AttestationPallet,
    e0: Seq<Event>,
    e1: Seq<Event>,
    chain_key: ChainKey,
    stash: AccountId,
    attestor_id: AccountId,
    current_era: u32,
    r: Result<(), crate::attestation::model::Error>,
)
    requires
        AttestationPallet::removal_effect(pre, post, e0, e1, chain_key, stash, attestor_id, current_era, r),
        keyed(pre.attestors@),
    ensures
        keyed(post.attestors@),
{
}

proof fn lemma_elect_fold_keyed(
    atts: Map<(ChainKey, AccountId), Attestor>,
    authorized: Map<(ChainKey, AccountId), ()>,
    policy: AttestorElectionPolicy,
    ks: Seq<(ChainKey, AccountId)>,
)
    requires
        keyed(atts),
    ensures
        keyed(elect_fold(atts, authorized, policy, ks).0),
        forall|k: (ChainKey, AccountId)| #[trigger] elect_fold(atts, authorized, policy, ks).0.contains_key(k)
            <==> atts.contains_key(k),
    decreases ks.len(),
{
    if ks.len() > 0 {
        lemma_elect_fold_keyed(atts, authorized, policy, ks.drop_last());
    }
}

/// An election keeps every non-idle attestor keyed: it activates waiting attestors,
/// which hold keys, and sets leaving ones idle.
pub proof fn law_election_keeps_attestors_keyed(pre: AttestationPallet, epoch: u64, chains: Seq<ChainKey>)
    requires
        keyed(pre.attestors@),
    ensures
        keyed(election_result(pre, epoch, chains).0),
    decreases chains.len(),
{
    if chains.len() > 0 {
        law_election_keeps_attestors_keyed(pre, epoch, chains.drop_last());
        let prev = election_result(pre, epoch, chains.drop_last());
        let c = chains.last();
        lemma_elect_fold_keyed(prev.0, pre.authorized@, pre.params_of(c).election_policy, pre.attestors.chain_order(c));
    }
}

/// Committing an attestation never lowers the last attested block of its chain, and
/// leaves the last attested block of every other chain as it was.
pub proof fn law_commit_never_lowers_the_last_attested_block(
    pre: ChainStore,
    post: ChainStore,
    e0: Seq<Event>,
    e1: Seq<Event>,
    a: SignedAttestation,
    p: ChainParams,
    r: Result<(), crate::attestation::model::Error>,
    c: ChainKey,
)
    requires
        commit_effect(pre, post, e0, e1, a, p, r),
    ensures
        pre.last_digest@.contains_key(c) ==> post.last_digest@.contains_key(c) && post.last_digest@[c].0
            >= pre.last_digest@[c].0,
        c != a.chain_key ==> post.last_digest@.contains_key(c) == pre.last_digest@.contains_key(c)
            && (pre.last_digest@.contains_key(c) ==> post.last_digest@[c] == pre.last_digest@[c]),
        r is Ok ==> post.last_digest@.contains_key(a.chain_key) && post.last_digest@[a.chain_key].0 >= a.header_number,
{
    let ck = a.chain_key;
    let d = a.digest;
    let attested = e0.push(Event::BlockAttested(ck, a.header_number, d));
    if !crate::attestation::pallet::has_checkpoints(pre, ck) {
    } else {
        let atts1 = pre.attestations@.insert((ck, d), a);
        match catchup_plan(
            atts1,
            pre.last_checkpoint@.get(ck),
            ck,
            a,
            d,
            pre.checkpointing_queue(ck),
            p.attestation_interval,
            p.checkpoint_interval,
        ) {
            Err(_) => {},
            Ok(cps) => {
                let mid = choose|mid: ChainStore| {
                    &&& recorded(pre, mid, a)
                    &&& if cps.len() > 0 {
                        r is Ok && catchup_effect(
                            mid,
                            post,
                            attested,
                            e1,
                            ck,
                            a,
                            d,
                            p.attestation_interval,
                            p.checkpoint_interval,
                            p.retention,
                            Ok::<bool, crate::attestation::model::Error>(true),
                        )
                    } else {
                        exists|z: ChainStore, q1: Seq<Digest>, tr: Result<(), crate::attestation::model::Error>|
                            {
                                &&& r is Ok
                                &&& checkpoint_effect(
                                    mid,
                                    z,
                                    pre.checkpointing_queue(ck).push(d),
                                    q1,
                                    attested,
                                    e1,
                                    ck,
                                    a.header_number,
                                    p.attestation_interval,
                                    p.checkpoint_interval,
                                    p.retention,
                                    tr,
                                )
                                &&& post.checkpointing_queue(ck) == q1
                                &&& post.checkpointing_queues@ == z.checkpointing_queues@.insert(
                                    ck,
                                    post.checkpointing_queues@[ck],
                                )
                                &&& post.attestations == z.attestations
                                &&& post.same_except_queue(z)
                            }
                    }
                };
                assert(mid.last_digest@ == crate::attestation::pallet::recorded_last_digest(pre.last_digest@, a));
                if cps.len() == 0 {
                    let (z, q1, tr) = choose|z: ChainStore, q1: Seq<Digest>, tr: Result<(), crate::attestation::model::Error>|
                        {
                            &&& r is Ok
                            &&& checkpoint_effect(
                                mid,
                                z,
                                pre.checkpointing_queue(ck).push(d),
                                q1,
                                attested,
                                e1,
                                ck,
                                a.header_number,
                                p.attestation_interval,
                                p.checkpoint_interval,
                                p.retention,
                                tr,
                            )
                            &&& post.checkpointing_queue(ck) == q1
                            &&& post.checkpointing_queues@ == z.checkpointing_queues@.insert(
                                ck,
                                post.checkpointing_queues@[ck],
                            )
                            &&& post.attestations == z.attestations
                            &&& post.same_except_queue(z)
                        };
                    assert(z.last_digest == mid.last_digest);
                }
            },
        }
    }
}

/// The finalized point that digest `d` names on `chain_key` (a stored attestation,
/// else the last checkpoint) is block `b`.
pub open spec fn names_finalized_block(
    atts: Map<(ChainKey, Digest), SignedAttestation>,
    last: Option<AttestationCheckpoint>,
    chain_key: ChainKey,
    d: Digest,
    b: int,
) -> bool {
    if atts.contains_key((chain_key, d)) {
        atts[(chain_key, d)].header_number == b
    } else {
        last is Some && last->0.digest == d && last->0.block_number == b
    }
}

/// The continuity check accepts exactly the attestations that leave no block
/// unaccounted for. The chain's first attestation has no previous digest. Any other
/// names a non-zero previous digest and needs a finalized point. With a continuity
/// proof of `n` blocks, the finalized point the proof links back to is the block right
/// below the proof's oldest block (`n + 1` below the attestation), and the proof's
/// newest digest is the attestation's previous digest. Without one, the previous
/// digest is the last finalized one and names the block right below the attestation.
pub proof fn law_continuity_is_gapless(
    atts: Map<(ChainKey, Digest), SignedAttestation>,
    last: Option<AttestationCheckpoint>,
    last_digest: Option<(u64, Digest)>,
    genesis: u64,
    a: SignedAttestation,
)
    ensures
        a.header_number == genesis ==> (continuity_check(atts, last, last_digest, genesis, a) is Ok
            <==> a.prev_digest is None),
        a.header_number != genesis ==> (continuity_check(atts, last, last_digest, genesis, a) is Ok <==> {
            let n = a.continuity_proof.digests@.len();
            let p = a.prev_digest->0;
            &&& a.prev_digest is Some
            &&& !p.spec_is_zero()
            &&& (last_digest is Some || last is Some)
            &&& if n == 0 {
                &&& p == (match last_digest {
                    Some(ld) => ld.1,
                    None => last->0.digest,
                })
                &&& names_finalized_block(atts, last, a.chain_key, p, a.header_number - 1)
            } else {
                &&& names_finalized_block(
                    atts,
                    last,
                    a.chain_key,
                    a.continuity_proof.lower_endpoint_digest,
                    a.header_number - n - 1,
                )
                &&& a.continuity_proof.digests@.last() == p
            }
        }),
{
}

/// Walking the checkpointing queue from position `i` towards block `target`, where the
/// entries before position `j` are stored attestations below the target and the one
/// at `j` is a stored attestation at or above it. At the target itself the checkpoint
/// lies on it, carries that attestation's digest, and the attestation is taken in.
/// Above it, the checkpoint lies on the target and carries the digest that the
/// attestation's continuity proof (whose blocks end right below the attestation)
/// gives for the target block, and the attestation stays queued; a target outside the
/// proof's blocks gives no checkpoint.
pub proof fn law_checkpoint_digest_from_queue(
    atts: Map<(ChainKey, Digest), SignedAttestation>,
    chain_key: ChainKey,
    queue: Seq<Digest>,
    target: int,
    i: int,
    j: int,
)
    requires
        0 <= i <= j < queue.len(),
        forall|k: int|
            #![trigger queue[k]]
            i <= k < j ==> atts.contains_key((chain_key, queue[k])) && atts[(chain_key, queue[k])].header_number
                < target,
        atts.contains_key((chain_key, queue[j])),
        atts[(chain_key, queue[j])].header_number >= target,
    ensures
        ({
            let r = checkpoint_scan(atts, chain_key, queue, target, i);
            let a = atts[(chain_key, queue[j])];
            let n = a.continuity_proof.digests@.len();
            let start = if a.header_number >= n {
                a.header_number - n
            } else {
                0
            };
            &&& a.header_number == target ==> r is Ok && r->Ok_0.0 == j + 1 && r->Ok_0.1.block_number == target
                && r->Ok_0.1.digest == a.digest
            &&& a.header_number > target && start <= target < start + n ==> r is Ok && r->Ok_0.0 == j
                && r->Ok_0.1.block_number == target && r->Ok_0.1.digest == a.continuity_proof.digests@[target
                - start]
            &&& a.header_number > target && !(start <= target < start + n) ==> r is Err
        }),
    decreases j - i,
{
    if i < j {
        assert(atts.contains_key((chain_key, queue[i])) && atts[(chain_key, queue[i])].header_number < target);
        law_checkpoint_digest_from_queue(atts, chain_key, queue, target, i + 1, j);
    }
}

/// Released chunks: the sum of the chunks due at `era` is the sum of the values of the
/// chunks whose era is at most `era`.
proof fn lemma_released_is_due_sum(chunks: Seq<UnlockChunk>, era: u32)
    ensures
        released_sum(chunks, era) == chunks_sum(chunks.filter(|c: UnlockChunk| c.era <= era)),
    decreases chunks.len(),
{
    let pred = |c: UnlockChunk| c.era <= era;
    if chunks.len() == 0 {
        assert(chunks.filter(pred) =~= Seq::<UnlockChunk>::empty()) by {
            reveal(Seq::filter);
        }
    } else {
        let init = chunks.drop_last();
        lemma_released_is_due_sum(init, era);
        assert(chunks =~= init.push(chunks.last()));
        init.lemma_filter_push(chunks.last(), pred);
        if chunks.last().era <= era {
            lemma_chunks_sum_push(init.filter(pred), chunks.last());
        }
    }
}

/// Withdrawing at era `current_era` releases exactly the unlock chunks due by then.
/// Every chunk of a later era stays in the stash's ledger. Past era zero, the kept
/// ledger's chunks are the not-yet-due ones in order, its total is its active stake
/// plus them, and the amount it released, which the withdrawal event reports when
/// there is any, is the sum of the due chunks.
pub proof fn law_withdrawal_releases_only_due_chunks(
    pre: AttestationPallet,
    post: AttestationPallet,
    e0: Seq<Event>,
    e1: Seq<Event>,
    stash: AccountId,
    current_era: u32,
    existential_deposit: Balance,
    r: Result<Vec<RuntimeAction>, crate::attestation::model::Error>,
)
    requires
        pre.wf(),
        AttestationPallet::withdrawal_effect(pre, post, e0, e1, stash, current_era, existential_deposit, r),
        pre.ledgers@.contains_key(stash),
    ensures
        forall|c: UnlockChunk|
            #[trigger] pre.ledgers@[stash].unlocking@.contains(c) && c.era > current_era
                ==> post.ledgers@.contains_key(stash) && post.ledgers@[stash].unlocking@.contains(c),
        current_era > 0 && post.ledgers@.contains_key(stash) ==> {
            let l = pre.ledgers@[stash];
            let kept = post.ledgers@[stash];
            &&& kept.unlocking@ == l.unlocking@.filter(|c: UnlockChunk| c.era > current_era)
            &&& kept.total_staked == l.active + chunks_sum(l.unlocking@.filter(|c: UnlockChunk| c.era > current_era))
            &&& l.total_staked - kept.total_staked == chunks_sum(
                l.unlocking@.filter(|c: UnlockChunk| c.era <= current_era),
            )
            &&& e1 == if l.total_staked > kept.total_staked {
                e0.push(Event::Withdrawn { stash, amount: (l.total_staked - kept.total_staked) as u128 })
            } else {
                e0
            }
        },
{
    let l = pre.ledgers@[stash];
    let u = l.unlocking@;
    let pred = |c: UnlockChunk| c.era > current_era;
    assert(l.balanced());
    lemma_released_split(u, current_era);
    lemma_released_is_due_sum(u, current_era);
    broadcast use vstd::seq_lib::group_filter_ensures;
    assert forall|c: UnlockChunk| #[trigger] u.contains(c) && c.era > current_era implies post.ledgers@.contains_key(
        stash,
    ) && post.ledgers@[stash].unlocking@.contains(c) by {
        let w = AttestationPallet::withdrawn_totals(l, current_era);
        let k = choose|k: int| 0 <= k < u.len() && u[k] == c;
        if current_era > 0 {
            assert(pred(u[k]));
            assert(u.filter(pred).contains(c));
        } else {
            assert(w.1 == u);
        }
        assert(w.1.contains(c));
        assert(w.1.len() > 0);
    }
    if current_era > 0 && post.ledgers@.contains_key(stash) {
        let w = AttestationPallet::withdrawn_totals(l, current_era);
        assert(w.1 == u.filter(pred));
        lemma_chunks_sum_nonneg(u.filter(pred));
        assert(l.total_staked == l.active + chunks_sum(u));
        assert(w.0 == l.active + chunks_sum(u.filter(pred)));
        let killed = w.1.len() == 0 && (l.active < existential_deposit || l.active == 0);
        assert(!killed);
        assert(post.ledgers@[stash].total_staked == w.0);
        assert(post.ledgers@[stash].unlocking@ == w.1);
        if l.total_staked > w.0 {
            assert(e1 =~= e0.push(Event::Withdrawn { stash, amount: (l.total_staked - w.0) as u128 }));
        } else {
            assert(e1 =~= e0);
        }
    }
}

/// A verified proof whose continuity chain starts right below the queried block and
/// counts `len` blocks, both ends included, is accepted exactly when that chain ends
/// at the block of the checkpoint or attestation it names: when the queried height
/// plus `len` is that block plus two.
pub proof fn law_proof_chain_ends_at_named_block(
    p: ProverPallet,
    store: ChainStore,
    proof: Seq<u8>,
    chain_key: ChainKey,
    query_height: u64,
    output: VerifierOutput,
    len: u64,
    digest: Digest,
    block: u64,
)
    requires
        p.precheck_verdict(proof) is Ok,
        output.status == 0,
        output.continuity_proof_len == Some(len),
        output.continuity_checkpoint_digest == Some(digest),
        expected_block(store, chain_key, query_height, digest) == Some(block),
        output.segments@.len() <= p.max_segments,
    ensures
        p.submit_verdict(store, proof, chain_key, query_height, output) is Ok <==> query_height + len == block + 2,
{
}

/// The attest-coin points a commit credits to a stash count every listed signer that
/// is a registered attestor of the chain with that stash, each position once: a stash
/// with several such signers is credited for each of them.
pub proof fn law_credits_count_each_signer(
    atts: Map<(ChainKey, AccountId), Attestor>,
    chain_key: ChainKey,
    ids: Seq<AccountId>,
    stash: AccountId,
)
    ensures
        credits_of(atts, chain_key, ids, stash) == ids.filter(
            |id: AccountId| atts.contains_key((chain_key, id)) && atts[(chain_key, id)].stash == stash,
        ).len(),
    decreases ids.len(),
{
    let pred = |id: AccountId| atts.contains_key((chain_key, id)) && atts[(chain_key, id)].stash == stash;
    if ids.len() == 0 {
        assert(ids.filter(pred) =~= Seq::<AccountId>::empty()) by {
            reveal(Seq::filter);
        }
    } else {
        let init = ids.drop_last();
        law_credits_count_each_signer(atts, chain_key, init, stash);
        assert(ids =~= init.push(ids.last()));
        init.lemma_filter_push(ids.last(), pred);
    }
}

/// The first checkpoint with digest `d` in `order` is one of `order` that holds `d`;
/// there is none only when no checkpoint of `order` holds `d`.
proof fn lemma_first_checkpoint_found(order: Seq<(ChainKey, u64)>, m: Map<(ChainKey, u64), Digest>, d: Digest)
    ensures
        first_checkpoint_with_digest(order, m, d) is Some ==> exists|k: int|
            0 <= k < order.len() && #[trigger] order[k].1 == first_checkpoint_with_digest(order, m, d)->0
                && m.contains_key(order[k]) && m[order[k]] == d,
        first_checkpoint_with_digest(order, m, d) is None ==> forall|k: int|
            0 <= k < order.len() ==> !(m.contains_key(#[trigger] order[k]) && m[order[k]] == d),
    decreases order.len(),
{
    if order.len() > 0 {
        let init = order.drop_last();
        lemma_first_checkpoint_found(init, m, d);
        match first_checkpoint_with_digest(init, m, d) {
            Some(b) => {
                let k = choose|k: int|
                    0 <= k < init.len() && #[trigger] init[k].1 == b && m.contains_key(init[k]) && m[init[k]] == d;
                assert(order[k] == init[k]);
            },
            None => {
                if m.contains_key(order.last()) && m[order.last()] == d {
                    assert(order[order.len() - 1].1 == order.last().1);
                } else {
                    assert forall|k: int| 0 <= k < order.len() implies !(m.contains_key(#[trigger] order[k]) && m[order[k]]
                        == d) by {
                        if k < init.len() {
                            assert(order[k] == init[k]);
                        }
                    }
                }
            },
        }
    }
}

/// The block a proof's continuity chain must end at is that of what its digest
/// names. When the last checkpoint covers the queried block, it is the block of a
/// checkpoint of the chain holding the digest, and there is one whenever such a
/// checkpoint exists. Otherwise it is the block of the stored attestation with that
/// digest, and there is none without one.
pub proof fn law_expected_block_is_named_block(store: ChainStore, chain_key: ChainKey, query_height: u64, digest: Digest)
    requires
        store.wf(),
    ensures
        ({
            let covered = store.last_checkpoint@.contains_key(chain_key)
                && store.last_checkpoint@[chain_key].block_number >= query_height;
            let e = expected_block(store, chain_key, query_height, digest);
            &&& covered && e is Some ==> store.checkpoints@.contains_key((chain_key, e->0))
                && store.checkpoints@[(chain_key, e->0)] == digest
            &&& covered && (exists|b: u64| #[trigger] store.checkpoints@.contains_key((chain_key, b))
                && store.checkpoints@[(chain_key, b)] == digest) ==> e is Some
            &&& !covered ==> e == (if store.attestations@.contains_key((chain_key, digest)) {
                Some(store.attestations@[(chain_key, digest)].header_number)
            } else {
                None::<u64>
            })
        }),
{
    let cps = store.checkpoints;
    let order = cps.chain_order(chain_key);
    let pred = chain_filter::<(ChainKey, u64)>(chain_key);
    broadcast use vstd::seq_lib::group_filter_ensures;
    lemma_first_checkpoint_found(order, cps@, digest);
    match first_checkpoint_with_digest(order, cps@, digest) {
        Some(b) => {
            let k = choose|k: int|
                0 <= k < order.len() && #[trigger] order[k].1 == b && cps@.contains_key(order[k]) && cps@[order[k]] == digest;
            assert(pred(order[k]));
            assert(order[k] == (chain_key, b));
        },
        None => {
            if exists|b: u64| #[trigger] cps@.contains_key((chain_key, b)) && cps@[(chain_key, b)] == digest {
                let b = choose|b: u64| #[trigger] cps@.contains_key((chain_key, b)) && cps@[(chain_key, b)] == digest;
                let key = (chain_key, b);
                let i = cps.idx(key);
                assert(cps.has(key));
                assert(cps.key_seq()[i] == key);
                assert(pred(cps.key_seq()[i]));
                assert(order.contains(key));
                let k = choose|k: int| 0 <= k < order.len() && order[k] == key;
                assert(!(cps@.contains_key(order[k]) && cps@[order[k]] == digest));
            }
        },
    }
}

} // verus!
