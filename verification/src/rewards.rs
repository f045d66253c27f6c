//! Attest-coin reward points: a stash accrues points whenever one of its attestors
//! signs a committed attestation, and claims them on the execution chain.

use vstd::prelude::*;

use crate::attestation::pallet::AttestationPallet;
use crate::keymap::KeyMap;
use crate::types::{AccountId, ChainKey, Digest};

verus! {

/// An address of the execution chain (20 bytes).
pub type H160 = [u8; 20];

/// Events of the rewards pallet.
#[derive(Clone, Copy, Debug)]
pub enum RewardsEvent {
    CommitSignersRewarded { chain_key: ChainKey, signers: u32, per_signer: u128 },
    RewardSkippedNoStash { chain_key: ChainKey, skipped: u32 },
    AttestCoinTokenSet { token: H160 },
}

/// Why a call of the rewards pallet was refused.
#[derive(Clone, Copy, Debug, PartialEq, Eq, Structural)]
pub enum RewardsError {
    TokenNotConfigured,
    NotStash,
    InsufficientAccrued,
    BadClaimNonce,
    /// The call's origin may not make it.
    BadOrigin,
}

/// The number of signers of `ids` that are registered attestors of `chain_key` whose
/// stash is `stash`.
pub open spec fn credits_of(
    atts: Map<(ChainKey, AccountId), crate::attestation::model::Attestor>,
    chain_key: ChainKey,
    ids: Seq<AccountId>,
    stash: AccountId,
) -> nat
    decreases ids.len(),
{
    if ids.len() == 0 {
        0
    } else {
        credits_of(atts, chain_key, ids.drop_last(), stash) + if atts.contains_key((chain_key, ids.last()))
            && atts[(chain_key, ids.last())].stash == stash {
            1nat
        } else {
            0nat
        }
    }
}

/// The number of signers of `ids` that are registered attestors of `chain_key`.
pub open spec fn registered_count(
    atts: Map<(ChainKey, AccountId), crate::attestation::model::Attestor>,
    chain_key: ChainKey,
    ids: Seq<AccountId>,
) -> nat
    decreases ids.len(),
{
    if ids.len() == 0 {
        0
    } else {
        registered_count(atts, chain_key, ids.drop_last()) + if atts.contains_key((chain_key, ids.last())) {
            1nat
        } else {
            0nat
        }
    }
}

/// `n`, saturated at `u32::MAX`.
pub open spec fn sat_u32(n: nat) -> u32 {
    if n <= u32::MAX {
        n as u32
    } else {
        u32::MAX
    }
}

/// The bytes that open a claim message.
pub open spec fn claim_prefix() -> Seq<u8> {
    seq![65u8, 116, 116, 101, 115, 116, 67, 111, 105, 110, 58, 99, 108, 97, 105, 109, 58, 118, 50, 58]
}

/// The `n` lowest bytes of `v`, least significant first.
pub open spec fn le_bytes(v: int, n: nat) -> Seq<u8>
    decreases n,
{
    if n == 0 {
        Seq::empty()
    } else {
        seq![(v % 256) as u8] + le_bytes(v / 256, (n - 1) as nat)
    }
}

/// The 32-byte form of a stash account: its 8 little-endian bytes, right-aligned.
pub open spec fn account_id_bytes(a: AccountId) -> Seq<u8> {
    Seq::new(24, |i: int| 0u8) + le_bytes(a as int, 8)
}

/// The message a stash signs to claim `amount` points on `chain_key` with `nonce`,
/// paid to `recipient`, on the network whose genesis block is `genesis`.
pub open spec fn claim_message(
    genesis: Digest,
    stash: AccountId,
    nonce: u64,
    chain_key: u64,
    amount: u128,
    recipient: Seq<u8>,
) -> Seq<u8> {
    claim_prefix() + genesis.spec_bytes() + account_id_bytes(stash) + le_bytes(nonce as int, 8) + le_bytes(
        chain_key as int,
        8,
    ) + le_bytes(amount as int, 16) + recipient
}

/// Appends the `n` lowest bytes of `v`, least significant first.
fn push_le(out: &mut Vec<u8>, v: u128, n: usize)
    requires
        n <= 16,
    ensures
        final(out)@ == old(out)@ + le_bytes(v as int, n as nat),
    decreases n,
{
    if n == 0 {
        assert(old(out)@ + le_bytes(v as int, 0) =~= old(out)@);
        return;
    }
    let b = (v & 0xffu128) as u8;
    let rest = v >> 8u128;
    assert(b == v % 256) by (bit_vector)
        requires
            b == (v & 0xffu128) as u8,
    ;
    assert(rest == v / 256) by (bit_vector)
        requires
            rest == v >> 8u128,
    ;
    let ghost o = out@;
    out.push(b);
    push_le(out, rest, n - 1);
    assert(out@ =~= o + le_bytes(v as int, n as nat));
}

/// `post` is `pre` after a claim of `amount` points by `stash` with nonce `nonce` was
/// committed: the points were taken and the nonce moved on.
pub open spec fn claim_committed(pre: RewardsPallet, post: RewardsPallet, stash: AccountId, nonce: u64, amount: u128) -> bool {
    &&& post.accrued@ == pre.accrued@.insert(stash, (pre.accrued_view(stash) - amount) as u128)
    &&& post.claim_nonces@ == pre.claim_nonces@.insert(stash, (nonce + 1) as u64)
    &&& post.token == pre.token
    &&& post.reward_per_signer == pre.reward_per_signer
}

/// `post` is `pre` after a committed claim of `amount` points by `stash` was undone:
/// its nonce is back at `nonce` and the points returned.
pub open spec fn claim_undone(pre: RewardsPallet, post: RewardsPallet, stash: AccountId, nonce: u64, amount: u128) -> bool {
    &&& post.claim_nonces@ == pre.claim_nonces@.insert(stash, nonce)
    &&& post.accrued@ == pre.accrued@.insert(stash, (pre.accrued_view(stash) + amount) as u128)
    &&& post.token == pre.token
    &&& post.reward_per_signer == pre.reward_per_signer
}

/// The rewards pallet's state.
pub struct RewardsPallet {
    /// Points accrued by each stash (zero when absent).
    pub accrued: KeyMap<AccountId, u128>,
    /// The nonce of each stash's next claim (zero when absent).
    pub claim_nonces: KeyMap<AccountId, u64>,
    /// The attest-coin ERC-20 token, once configured.
    pub token: Option<H160>,
    /// Points credited per eligible signer of a committed attestation.
    pub reward_per_signer: u128,
}

impl RewardsPallet {
    pub open spec fn wf(&self) -> bool {
        &&& self.accrued.wf()
        &&& self.claim_nonces.wf()
    }

    /// The points accrued by `stash`.
    pub open spec fn accrued_view(&self, stash: AccountId) -> u128 {
        if self.accrued@.contains_key(stash) {
            self.accrued@[stash]
        } else {
            0
        }
    }

    /// The nonce of the next claim of `stash`.
    pub open spec fn nonce_view(&self, stash: AccountId) -> u64 {
        if self.claim_nonces@.contains_key(stash) {
            self.claim_nonces@[stash]
        } else {
            0
        }
    }

    /// A pallet with nothing accrued and no token.
    pub fn new(reward_per_signer: u128) -> (r: Self)
        ensures
            r.wf(),
            forall|s: AccountId| r.accrued_view(s) == 0 && r.nonce_view(s) == 0,
            r.token is None,
            r.reward_per_signer == reward_per_signer,
    {
        RewardsPallet {
            accrued: KeyMap::new(),
            claim_nonces: KeyMap::new(),
            token: None,
            reward_per_signer,
        }
    }

    /// Root configures the attest-coin token.
    pub fn set_attest_coin_token(&mut self, root: bool, token: H160, events: &mut Vec<RewardsEvent>) -> (r: Result<
        (),
        RewardsError,
    >)
        ensures
            !root ==> r == Err::<(), RewardsError>(RewardsError::BadOrigin) && *final(self) == *old(self)
                && final(events)@ == old(events)@,
            root ==> r is Ok && final(self).token == Some(token) && final(events)@ == old(events)@.push(
                RewardsEvent::AttestCoinTokenSet { token },
            ),
            final(self).accrued == old(self).accrued,
            final(self).claim_nonces == old(self).claim_nonces,
            final(self).reward_per_signer == old(self).reward_per_signer,
    {
        if !root {
            return Err(RewardsError::BadOrigin);
        }
        self.token = Some(token);
        events.push(RewardsEvent::AttestCoinTokenSet { token });
        Ok(())
    }

    /// The points accrued by `stash`.
    pub fn accrued_of(&self, stash: AccountId) -> (r: u128)
        requires
            self.wf(),
        ensures
            r == self.accrued_view(stash),
    {
        match self.accrued.get(&stash) {
            Some(v) => *v,
            None => 0,
        }
    }

    /// The configured token, if any.
    pub fn erc20_token(&self) -> (r: Option<H160>)
        ensures
            r == self.token,
    {
        self.token
    }

    /// The nonce of the next claim of `stash`.
    pub fn claim_nonce_of(&self, stash: AccountId) -> (r: u64)
        requires
            self.wf(),
        ensures
            r == self.nonce_view(stash),
    {
        match self.claim_nonces.get(&stash) {
            Some(v) => *v,
            None => 0,
        }
    }

    /// Gives `amount` points back to `stash`.
    pub fn restore_accrued(&mut self, stash: AccountId, amount: u128)
        requires
            old(self).wf(),
            old(self).accrued_view(stash) + amount <= u128::MAX,
        ensures
            final(self).wf(),
            final(self).accrued@ == old(self).accrued@.insert(stash, (old(self).accrued_view(stash) + amount) as u128),
            final(self).claim_nonces == old(self).claim_nonces,
            final(self).token == old(self).token,
            final(self).reward_per_signer == old(self).reward_per_signer,
    {
        let a = self.accrued_of(stash);
        self.accrued.insert(stash, a + amount);
    }

    /// Takes `amount` points from `stash` for a claim; refused when it has fewer.
    pub fn take_accrued_for_claim(&mut self, stash: AccountId, amount: u128) -> (r: Result<(), RewardsError>)
        requires
            old(self).wf(),
        ensures
            final(self).wf(),
            old(self).accrued_view(stash) < amount ==> r == Err::<(), RewardsError>(RewardsError::InsufficientAccrued)
                && *final(self) == *old(self),
            old(self).accrued_view(stash) >= amount ==> r is Ok && final(self).accrued@ == old(self).accrued@.insert(
                stash,
                (old(self).accrued_view(stash) - amount) as u128,
            ) && final(self).claim_nonces == old(self).claim_nonces && final(self).token == old(self).token
                && final(self).reward_per_signer == old(self).reward_per_signer,
    {
        let a = self.accrued_of(stash);
        if a < amount {
            return Err(RewardsError::InsufficientAccrued);
        }
        self.accrued.insert(stash, a - amount);
        Ok(())
    }

    /// Commits a claim of `amount` points by `stash` with nonce `expected_nonce`: the
    /// nonce must be the stash's next one and have a successor, and the stash must
    /// hold the points; they are taken and the nonce moves on. On error nothing
    /// changes.
    pub fn commit_claim(&mut self, stash: AccountId, expected_nonce: u64, amount: u128) -> (r: Result<(), RewardsError>)
        requires
            old(self).wf(),
        ensures
            final(self).wf(),
            (old(self).nonce_view(stash) != expected_nonce || expected_nonce == u64::MAX) ==> r == Err::<
                (),
                RewardsError,
            >(RewardsError::BadClaimNonce) && *final(self) == *old(self),
            old(self).nonce_view(stash) == expected_nonce && expected_nonce < u64::MAX && old(self).accrued_view(stash)
                < amount ==> r == Err::<(), RewardsError>(RewardsError::InsufficientAccrued) && *final(self) == *old(self),
            old(self).nonce_view(stash) == expected_nonce && expected_nonce < u64::MAX && old(self).accrued_view(stash)
                >= amount ==> r is Ok && claim_committed(*old(self), *final(self), stash, expected_nonce, amount),
    {
        if self.claim_nonce_of(stash) != expected_nonce || expected_nonce == u64::MAX {
            return Err(RewardsError::BadClaimNonce);
        }
        match self.take_accrued_for_claim(stash, amount) {
            Err(e) => {
                return Err(e);
            },
            Ok(()) => {},
        }
        self.claim_nonces.insert(stash, expected_nonce + 1);
        Ok(())
    }

    /// Undoes a committed claim: the nonce goes back to `nonce_before_claim` and the
    /// points return.
    pub fn undo_claim_commit(&mut self, stash: AccountId, nonce_before_claim: u64, amount: u128)
        requires
            old(self).wf(),
            old(self).accrued_view(stash) + amount <= u128::MAX,
        ensures
            final(self).wf(),
            claim_undone(*old(self), *final(self), stash, nonce_before_claim, amount),
    {
        self.claim_nonces.insert(stash, nonce_before_claim);
        self.restore_accrued(stash, amount);
    }

    /// Credits, for each signer of `eligible_signers` that is a registered attestor of
    /// `chain_key`, the reward per signer to its stash. `CommitSignersRewarded` tells
    /// how many were credited once the token is configured; `RewardSkippedNoStash`
    /// how many were not registered.
    pub fn reward_commit_signers(
        &mut self,
        attestation: &AttestationPallet,
        chain_key: ChainKey,
        eligible_signers: &Vec<AccountId>,
        events: &mut Vec<RewardsEvent>,
    )
        requires
            old(self).wf(),
            attestation.wf(),
            forall|s: AccountId| old(self).accrued_view(s) + old(self).reward_per_signer * credits_of(
                attestation.attestors@,
                chain_key,
                eligible_signers@,
                s,
            ) <= u128::MAX,
        ensures
            final(self).wf(),
            final(self).claim_nonces == old(self).claim_nonces,
            final(self).token == old(self).token,
            final(self).reward_per_signer == old(self).reward_per_signer,
            old(self).reward_per_signer == 0 || eligible_signers@.len() == 0 ==> *final(self) == *old(self)
                && final(events)@ == old(events)@,
            old(self).reward_per_signer != 0 && eligible_signers@.len() > 0 ==> {
                let credited = registered_count(attestation.attestors@, chain_key, eligible_signers@);
                let skipped = eligible_signers@.len() - credited;
                &&& forall|s: AccountId| #[trigger] final(self).accrued_view(s) == old(self).accrued_view(s)
                    + old(self).reward_per_signer * credits_of(attestation.attestors@, chain_key, eligible_signers@, s)
                &&& final(events)@ == old(events)@ + (if credited > 0 && old(self).token is Some {
                    seq![
                        RewardsEvent::CommitSignersRewarded {
                            chain_key,
                            signers: sat_u32(credited),
                            per_signer: old(self).reward_per_signer,
                        },
                    ]
                } else {
                    Seq::empty()
                }) + (if skipped > 0 {
                    seq![RewardsEvent::RewardSkippedNoStash { chain_key, skipped: sat_u32(skipped as nat) }]
                } else {
                    Seq::empty()
                })
            },
    {
        let per = self.reward_per_signer;
        if per == 0 || eligible_signers.len() == 0 {
            return;
        }
        let ghost ids = eligible_signers@;
        let ghost atts = attestation.attestors@;
        let mut credited: u32 = 0;
        let mut skipped: u32 = 0;
        let ghost mut ncredited: nat = 0;
        let mut i: usize = 0;
        proof {
            assert(ids.take(0) =~= Seq::<AccountId>::empty());
            assert forall|s: AccountId| #[trigger] self.accrued_view(s) == old(self).accrued_view(s) + per * credits_of(
                atts,
                chain_key,
                ids.take(0),
                s,
            ) by {
                assert(credits_of(atts, chain_key, ids.take(0), s) == 0);
            }
        }
        while i < eligible_signers.len()
            invariant
                self.wf(),
                attestation.wf(),
                ids == eligible_signers@,
                atts == attestation.attestors@,
                per == self.reward_per_signer,
                per == old(self).reward_per_signer,
                i <= ids.len(),
                self.claim_nonces == old(self).claim_nonces,
                self.token == old(self).token,
                forall|s: AccountId| old(self).accrued_view(s) + per * credits_of(atts, chain_key, ids, s) <= u128::MAX,
                forall|s: AccountId| #[trigger] self.accrued_view(s) == old(self).accrued_view(s) + per * credits_of(
                    atts,
                    chain_key,
                    ids.take(i as int),
                    s,
                ),
                ncredited == registered_count(atts, chain_key, ids.take(i as int)),
                ncredited <= i,
                credited == sat_u32(ncredited),
                skipped == sat_u32((i - ncredited) as nat),
            decreases ids.len() - i,
        {
            let id = eligible_signers[i];
            proof {
                assert(ids.take(i + 1).drop_last() =~= ids.take(i as int));
                assert(ids.take(i + 1).last() == id);
            }
            match attestation.attestors.get(&(chain_key, id)) {
                Some(att) => {
                    let stash = att.stash;
                    let a = self.accrued_of(stash);
                    let ghost before = *self;
                    proof {
                        lemma_credits_prefix(atts, chain_key, ids, stash, i + 1);
                        let c0 = credits_of(atts, chain_key, ids.take(i as int), stash);
                        let c1 = credits_of(atts, chain_key, ids.take(i + 1), stash);
                        let call = credits_of(atts, chain_key, ids, stash);
                        assert(c1 == c0 + 1);
                        assert(per * c1 <= per * call) by (nonlinear_arith)
                            requires
                                c1 <= call,
                        ;
                        assert(per * (c0 + 1) == per * c0 + per) by (nonlinear_arith);
                        assert(a == old(self).accrued_view(stash) + per * c0);
                    }
                    self.accrued.insert(stash, a + per);
                    credited = credited.saturating_add(1);
                    proof {
                        ncredited = ncredited + 1;
                        assert forall|s: AccountId| #[trigger] self.accrued_view(s) == old(self).accrued_view(s) + per * credits_of(
                            atts,
                            chain_key,
                            ids.take(i + 1),
                            s,
                        ) by {
                            let c0 = credits_of(atts, chain_key, ids.take(i as int), s);
                            assert(before.accrued_view(s) == old(self).accrued_view(s) + per * c0);
                            assert(per * (c0 + 1) == per * c0 + per) by (nonlinear_arith);
                        }
                    }
                },
                None => {
                    skipped = skipped.saturating_add(1);
                    proof {
                        assert forall|s: AccountId| #[trigger] self.accrued_view(s) == old(self).accrued_view(s) + per * credits_of(
                            atts,
                            chain_key,
                            ids.take(i + 1),
                            s,
                        ) by {
                            assert(credits_of(atts, chain_key, ids.take(i + 1), s) == credits_of(atts, chain_key, ids.take(i as int), s));
                        }
                    }
                },
            }
            i = i + 1;
        }
        proof {
            assert(ids.take(ids.len() as int) =~= ids);
        }
        if credited > 0 && self.token.is_some() {
            events.push(RewardsEvent::CommitSignersRewarded { chain_key, signers: credited, per_signer: per });
        }
        if skipped > 0 {
            events.push(RewardsEvent::RewardSkippedNoStash { chain_key, skipped });
        }
        proof {
            let cr = registered_count(atts, chain_key, ids);
            let e1: Seq<RewardsEvent> = if cr > 0 && old(self).token is Some {
                seq![RewardsEvent::CommitSignersRewarded { chain_key, signers: sat_u32(cr), per_signer: per }]
            } else {
                Seq::empty()
            };
            let e2: Seq<RewardsEvent> = if ids.len() - cr > 0 {
                seq![RewardsEvent::RewardSkippedNoStash { chain_key, skipped: sat_u32((ids.len() - cr) as nat) }]
            } else {
                Seq::empty()
            };
            assert(events@ =~= old(events)@ + e1 + e2);
        }
    }
}

/// The credits of a prefix of the signers are at most those of all of them.
proof fn lemma_credits_prefix(
    atts: Map<(ChainKey, AccountId), crate::attestation::model::Attestor>,
    chain_key: ChainKey,
    ids: Seq<AccountId>,
    stash: AccountId,
    k: int,
)
    requires
        0 <= k <= ids.len(),
    ensures
        credits_of(atts, chain_key, ids.take(k), stash) <= credits_of(atts, chain_key, ids, stash),
    decreases ids.len() - k,
{
    if k < ids.len() {
        assert(ids.take(k + 1).drop_last() =~= ids.take(k));
        lemma_credits_prefix(atts, chain_key, ids, stash, k + 1);
    } else {
        assert(ids.take(k) =~= ids);
    }
}

/// The message a stash signs to claim `amount` points on `chain_key` with `nonce`,
/// paid to `evm_recipient`, on the network whose genesis block hash is `genesis`.
pub fn claim_signing_message(
    genesis: Digest,
    stash: AccountId,
    nonce: u64,
    chain_key: u64,
    amount: u128,
    evm_recipient: H160,
) -> (m: Vec<u8>)
    ensures
        m@ == claim_message(genesis, stash, nonce, chain_key, amount, evm_recipient@),
{
    let mut m: Vec<u8> = Vec::new();
    let prefix: [u8; 20] = [65, 116, 116, 101, 115, 116, 67, 111, 105, 110, 58, 99, 108, 97, 105, 109, 58, 118, 50, 58];
    let mut i: usize = 0;
    while i < 20
        invariant
            i <= 20,
            prefix@ == claim_prefix(),
            m@ == claim_prefix().take(i as int),
        decreases 20 - i,
    {
        m.push(prefix[i]);
        proof {
            assert(claim_prefix().take(i + 1) =~= claim_prefix().take(i as int).push(prefix@[i as int]));
        }
        i = i + 1;
    }
    proof {
        assert(claim_prefix().take(20) =~= claim_prefix());
    }
    let g = genesis.to_bytes();
    let mut j: usize = 0;
    let ghost m0 = m@;
    while j < g.len()
        invariant
            j <= g@.len(),
            m@ == m0 + g@.take(j as int),
        decreases g@.len() - j,
    {
        m.push(g[j]);
        proof {
            assert(g@.take(j + 1) =~= g@.take(j as int).push(g@[j as int]));
        }
        j = j + 1;
    }
    proof {
        assert(g@.take(g@.len() as int) =~= g@);
    }
    let ghost m1 = m@;
    let mut k: usize = 0;
    while k < 24
        invariant
            k <= 24,
            m@ == m1 + Seq::new(k as nat, |x: int| 0u8),
        decreases 24 - k,
    {
        m.push(0);
        proof {
            assert(Seq::new((k + 1) as nat, |x: int| 0u8) =~= Seq::new(k as nat, |x: int| 0u8).push(0u8));
        }
        k = k + 1;
    }
    push_le(&mut m, stash as u128, 8);
    push_le(&mut m, nonce as u128, 8);
    push_le(&mut m, chain_key as u128, 8);
    push_le(&mut m, amount, 16);
    let ghost m2 = m@;
    let mut r: usize = 0;
    while r < 20
        invariant
            r <= 20,
            m@ == m2 + evm_recipient@.take(r as int),
        decreases 20 - r,
    {
        m.push(evm_recipient[r]);
        proof {
            assert(evm_recipient@.take(r + 1) =~= evm_recipient@.take(r as int).push(evm_recipient@[r as int]));
        }
        r = r + 1;
    }
    proof {
        assert(evm_recipient@.take(20) =~= evm_recipient@);
        assert(m@ =~= claim_message(genesis, stash, nonce, chain_key, amount, evm_recipient@));
    }
    m
}

} // verus!
