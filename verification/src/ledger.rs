use vstd::prelude::*;

use crate::types::{AccountId, Balance, EraIndex};

verus! {

/// Amount of funds to be unlocked, and the era at which they unlock.
#[derive(Clone, Copy, Debug, PartialEq, Eq, Structural)]
pub struct UnlockChunk {
    /// Amount of funds to be unlocked.
    pub value: Balance,
    /// Era number at which point it'll be unlocked.
    pub era: EraIndex,
}

/// The bond of a stash account.
pub struct AttestorLedger {
    /// The stash account whose bond is held.
    pub stash: AccountId,
    /// The total amount of the stash's bond that we are currently accounting for.
    /// It's just `active` plus all the `unlocking` balances.
    pub total_staked: Balance,
    /// The total amount of the stash's balance that will be at stake in any forthcoming
    /// rounds.
    pub active: Balance,
    /// Balance that is becoming free, first in, first out: later eras go at the back.
    pub unlocking: Vec<UnlockChunk>,
}

/// Why a ledger operation was refused.
#[derive(Clone, Copy, Debug, PartialEq, Eq, Structural)]
pub enum LedgerError {
    /// No more unlock chunks can be added.
    NoMoreChunks,
    /// An addition would overflow.
    Overflow,
}

/// Sum of the values of `chunks`.
pub open spec fn chunks_sum(chunks: Seq<UnlockChunk>) -> int
    decreases chunks.len(),
{
    if chunks.len() == 0 {
        0
    } else {
        chunks_sum(chunks.drop_last()) + chunks.last().value
    }
}

/// Sum of the values of the chunks of `chunks` that are due at `current_era`.
pub open spec fn released_sum(chunks: Seq<UnlockChunk>, current_era: EraIndex) -> int
    decreases chunks.len(),
{
    if chunks.len() == 0 {
        0
    } else {
        released_sum(chunks.drop_last(), current_era) + if chunks.last().era <= current_era {
            chunks.last().value as int
        } else {
            0
        }
    }
}

/// The chunks of `chunks` that are not yet due at `current_era`, in order.
pub open spec fn pending_chunks(chunks: Seq<UnlockChunk>, current_era: EraIndex) -> Seq<
    UnlockChunk,
> {
    chunks.filter(|c: UnlockChunk| c.era > current_era)
}

/// `a - b`, or zero when `b` exceeds `a`.
pub open spec fn sat_sub(a: int, b: int) -> int {
    if a >= b {
        a - b
    } else {
        0
    }
}

pub proof fn lemma_chunks_sum_push(chunks: Seq<UnlockChunk>, c: UnlockChunk)
    ensures
        chunks_sum(chunks.push(c)) == chunks_sum(chunks) + c.value,
        chunks_sum(chunks) >= 0,
{
    assert(chunks.push(c).drop_last() =~= chunks);
    lemma_chunks_sum_nonneg(chunks);
}

pub proof fn lemma_chunks_sum_nonneg(chunks: Seq<UnlockChunk>)
    ensures
        chunks_sum(chunks) >= 0,
    decreases chunks.len(),
{
    if chunks.len() > 0 {
        lemma_chunks_sum_nonneg(chunks.drop_last());
    }
}

/// Raising the value of the last chunk raises the sum by as much.
pub proof fn lemma_chunks_sum_update_last(chunks: Seq<UnlockChunk>, c: UnlockChunk)
    requires
        chunks.len() > 0,
    ensures
        chunks_sum(chunks.update(chunks.len() - 1, c)) == chunks_sum(chunks) - chunks.last().value
            + c.value,
{
    assert(chunks.update(chunks.len() - 1, c).drop_last() =~= chunks.drop_last());
}

pub proof fn lemma_released_split(chunks: Seq<UnlockChunk>, current_era: EraIndex)
    ensures
        chunks_sum(chunks) == released_sum(chunks, current_era) + chunks_sum(
            pending_chunks(chunks, current_era),
        ),
        released_sum(chunks, current_era) >= 0,
    decreases chunks.len(),
{
    if chunks.len() > 0 {
        let init = chunks.drop_last();
        lemma_released_split(init, current_era);
        assert(chunks =~= init.push(chunks.last()));
        init.lemma_filter_push(chunks.last(), |c: UnlockChunk| c.era > current_era);
        if chunks.last().era > current_era {
            lemma_chunks_sum_push(pending_chunks(init, current_era), chunks.last());
        }
    } else {
        assert(pending_chunks(chunks, current_era) =~= Seq::<UnlockChunk>::empty());
    }
}

/// What `unbond` makes of ledger `l`: the amount moved, the new active stake and
/// the new unlock chunks.
pub open spec fn unbond_outcome(l: AttestorLedger, bond: Balance, existential_deposit: Balance, era: EraIndex) -> (
    Balance,
    Balance,
    Seq<UnlockChunk>,
) {
    let first = if bond <= l.active {
        bond
    } else {
        l.active
    };
    if first == 0 {
        (0, l.active, l.unlocking@)
    } else {
        let rest = (l.active - first) as u128;
        let value = if rest < existential_deposit {
            l.active
        } else {
            first
        };
        let active = if rest < existential_deposit {
            0
        } else {
            rest
        };
        let q = l.unlocking@;
        let q2 = if q.len() > 0 && q.last().era == era {
            q.update(q.len() - 1, UnlockChunk { value: (q.last().value + value) as u128, era })
        } else {
            q.push(UnlockChunk { value, era })
        };
        (value, active, q2)
    }
}

impl AttestorLedger {
    /// The books balance: `total_staked` is `active` plus all the `unlocking` balances.
    pub open spec fn balanced(&self) -> bool {
        self.total_staked == self.active + chunks_sum(self.unlocking@)
    }

    /// An empty ledger for `stash`.
    pub fn default_from(stash: AccountId) -> (l: Self)
        ensures
            l.stash == stash,
            l.total_staked == 0,
            l.active == 0,
            l.unlocking@ == Seq::<UnlockChunk>::empty(),
            l.balanced(),
    {
        AttestorLedger { stash, total_staked: 0, active: 0, unlocking: Vec::new() }
    }

    /// A ledger for `stash` holding `stake`, all of it active.
    pub fn new(stash: AccountId, stake: Balance) -> (l: Self)
        ensures
            l.stash == stash,
            l.total_staked == stake,
            l.active == stake,
            l.unlocking@ == Seq::<UnlockChunk>::empty(),
            l.balanced(),
    {
        AttestorLedger { stash, total_staked: stake, active: stake, unlocking: Vec::new() }
    }

    /// Remove entries from `unlocking` that are due at `current_era` and reduce the total
    /// by the sum of their balances (down to zero at most).
    pub fn consolidate_unlocked(self, current_era: EraIndex) -> (r: Self)
        ensures
            r.stash == self.stash,
            r.active == self.active,
            r.unlocking@ == pending_chunks(self.unlocking@, current_era),
            r.total_staked == sat_sub(
                self.total_staked as int,
                released_sum(self.unlocking@, current_era),
            ),
            self.balanced() ==> r.balanced(),
    {
        let ghost chunks = self.unlocking@;
        let mut total = self.total_staked;
        let mut kept: Vec<UnlockChunk> = Vec::new();
        let n = self.unlocking.len();
        let mut i: usize = 0;
        while i < n
            invariant
                n == chunks.len(),
                chunks == self.unlocking@,
                i <= n,
                kept@ == pending_chunks(chunks.take(i as int), current_era),
                total == sat_sub(
                    self.total_staked as int,
                    released_sum(chunks.take(i as int), current_era),
                ),
            decreases n - i,
        {
            let c = self.unlocking[i];
            proof {
                assert(chunks.take(i + 1) =~= chunks.take(i as int).push(c));
                assert(chunks.take(i + 1).drop_last() =~= chunks.take(i as int));
                chunks.take(i as int).lemma_filter_push(c, |c: UnlockChunk| c.era > current_era);
                lemma_released_split(chunks.take(i as int), current_era);
            }
            if c.era > current_era {
                kept.push(c);
            } else {
                total = total.saturating_sub(c.value);
            }
            i = i + 1;
        }
        proof {
            assert(chunks.take(n as int) =~= chunks);
            lemma_released_split(chunks, current_era);
            lemma_chunks_sum_nonneg(pending_chunks(chunks, current_era));
        }
        AttestorLedger {
            stash: self.stash,
            total_staked: total,
            active: self.active,
            unlocking: kept,
        }
    }

    /// Moves `min(bond, active)` from the active stake into an unlocking chunk due at
    /// `era`, folding a remaining active dust (below `existential_deposit`) in with it;
    /// a chunk already due at `era` at the back of the queue absorbs the amount.
    /// Refused when `max_chunks` chunks are already queued. Returns the amount moved.
    pub fn unbond(
        &mut self,
        bond: Balance,
        existential_deposit: Balance,
        era: EraIndex,
        max_chunks: usize,
    ) -> (r: Result<Balance, LedgerError>)
        requires
            old(self).balanced(),
        ensures
            final(self).stash == old(self).stash,
            final(self).total_staked == old(self).total_staked,
            final(self).balanced(),
            old(self).unlocking@.len() >= max_chunks ==> r == Err::<Balance, LedgerError>(
                LedgerError::NoMoreChunks,
            ) && *final(self) == *old(self),
            old(self).unlocking@.len() < max_chunks ==> r is Ok,
            r matches Ok(value) ==> value == unbond_outcome(*old(self), bond, existential_deposit, era).0
                && final(self).active == unbond_outcome(*old(self), bond, existential_deposit, era).1
                && final(self).unlocking@ == unbond_outcome(*old(self), bond, existential_deposit, era).2,
            r matches Ok(value) ==> {
                let first = if bond <= old(self).active {
                    bond
                } else {
                    old(self).active
                };
                let rest = old(self).active - first;
                &&& first == 0 ==> value == 0 && final(self).active == old(self).active
                    && final(self).unlocking@ == old(self).unlocking@
                &&& first != 0 && rest < existential_deposit ==> value == old(self).active
                    && final(self).active == 0
                &&& first != 0 && rest >= existential_deposit ==> value == first
                    && final(self).active == rest
                &&& first != 0 ==> {
                    let q = old(self).unlocking@;
                    if q.len() > 0 && q.last().era == era {
                        final(self).unlocking@ == q.update(
                            q.len() - 1,
                            UnlockChunk { value: (q.last().value + value) as u128, era },
                        )
                    } else {
                        final(self).unlocking@ == q.push(UnlockChunk { value, era })
                    }
                }
            },
    {
        let mut value = if bond <= self.active {
            bond
        } else {
            self.active
        };
        if self.unlocking.len() >= max_chunks {
            return Err(LedgerError::NoMoreChunks);
        }
        if value != 0 {
            self.active = self.active - value;
            if self.active < existential_deposit {
                value = value + self.active;
                self.active = 0;
            }
            let n = self.unlocking.len();
            proof {
                lemma_chunks_sum_nonneg(self.unlocking@);
            }
            if n > 0 && self.unlocking[n - 1].era == era {
                let last = self.unlocking[n - 1];
                proof {
                    lemma_chunks_sum_update_last(
                        self.unlocking@,
                        UnlockChunk { value: (last.value + value) as u128, era },
                    );
                    assert(self.unlocking@.drop_last().push(last) =~= self.unlocking@);
                    lemma_chunks_sum_push(self.unlocking@.drop_last(), last);
                    lemma_chunks_sum_nonneg(self.unlocking@.drop_last());
                }
                self.unlocking.set(n - 1, UnlockChunk { value: last.value + value, era });
            } else {
                proof {
                    lemma_chunks_sum_push(self.unlocking@, UnlockChunk { value, era });
                }
                self.unlocking.push(UnlockChunk { value, era });
            }
        }
        Ok(value)
    }

    /// Adds `extra` to both the total and the active stake; refused on overflow.
    pub fn bond_more(&mut self, extra: Balance) -> (r: Result<(), LedgerError>)
        ensures
            r is Ok <==> old(self).total_staked + extra <= u128::MAX && old(self).active + extra
                <= u128::MAX,
            r is Ok ==> final(self).total_staked == old(self).total_staked + extra
                && final(self).active == old(self).active + extra,
            r is Err ==> *final(self) == *old(self),
            final(self).stash == old(self).stash,
            final(self).unlocking@ == old(self).unlocking@,
            old(self).balanced() ==> final(self).balanced(),
    {
        match self.total_staked.checked_add(extra) {
            Some(t) => match self.active.checked_add(extra) {
                Some(a) => {
                    self.total_staked = t;
                    self.active = a;
                    Ok(())
                },
                None => Err(LedgerError::Overflow),
            },
            None => Err(LedgerError::Overflow),
        }
    }
}

} // verus!
