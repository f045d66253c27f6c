//! Reverting a chain to an earlier checkpoint, and the per-block clearing of
//! checkpoints, bucket entries and reverted checkpoints.

use vstd::prelude::*;

use crate::attestation::model::{AttestationCheckpoint, CheckpointPruningState, Error, Event};
use crate::attestation::store::{
    bucket_index, ChainStore, CHECKPOINT_BUCKET_SIZE, FORWARD_PATCH_ATTESTATIONS_CLEAR_BATCH,
    MAX_CHECKPOINTS_CLEARED_PER_BLOCK, MAX_FORWARD_PATCH_ATTESTATIONS_CLEAR_LOOPS,
};
use crate::keymap::{lemma_filter_twice, pivot_filter};
use crate::types::{ChainKey, Digest};

verus! {

/// `a + b`, saturated at `u64::MAX`.
pub open spec fn sat_add_u64(a: u64, b: u64) -> u64 {
    if a + b <= u64::MAX {
        (a + b) as u64
    } else {
        u64::MAX
    }
}

/// The checkpoint key `(chain, block)` that a bucket key `(chain, pivot, block)` indexes.
pub open spec fn indexed_checkpoint(k: (u64, u64, u64)) -> (ChainKey, u64) {
    (k.0, k.2)
}

/// Whether a bucket key lies in pivot `p` of chain `c` above block `h`.
pub open spec fn above_in_pivot(c: ChainKey, p: u64, h: u64) -> spec_fn((u64, u64, u64)) -> bool {
    |k: (u64, u64, u64)| k.0 == c && k.1 == p && k.2 > h
}

/// One block's pruning of reverted checkpoints of chain `c`, over the bucket keys
/// `keys` (in their storage order), from state `st`, with `entries` removals and
/// `pivots` pivot advances left: the bucket keys removed, in order, and the state
/// left behind (`None` once the pivots above the stop height are reached).
pub open spec fn prune_pass(
    keys: Seq<(u64, u64, u64)>,
    c: ChainKey,
    st: CheckpointPruningState,
    entries: nat,
    pivots: nat,
) -> (Seq<(u64, u64, u64)>, Option<CheckpointPruningState>)
    decreases pivots,
{
    if entries == 0 || pivots == 0 {
        (Seq::empty(), Some(st))
    } else if st.next_pivot > st.stop_height {
        (Seq::empty(), None)
    } else {
        let hs = keys.filter(pivot_filter(c, st.next_pivot));
        if hs.len() <= entries {
            let next = CheckpointPruningState {
                stop_height: st.stop_height,
                next_pivot: sat_add_u64(st.next_pivot, CHECKPOINT_BUCKET_SIZE),
            };
            let rest = prune_pass(
                keys.filter(|k: (u64, u64, u64)| !hs.contains(k)),
                c,
                next,
                (entries - hs.len()) as nat,
                (pivots - 1) as nat,
            );
            (hs + rest.0, rest.1)
        } else {
            (hs.take(entries as int), Some(st))
        }
    }
}

impl ChainStore {
    /// Every field but the checkpoints and their bucket index is that of `other`.
    pub open spec fn same_except_checkpoints(&self, other: Self) -> bool {
        &&& self.attestations == other.attestations
        &&& self.last_checkpoint == other.last_checkpoint
        &&& self.checkpointing_queues == other.checkpointing_queues
        &&& self.last_digest == other.last_digest
        &&& self.attestation_removal_queues == other.attestation_removal_queues
        &&& self.checkpoint_clearing == other.checkpoint_clearing
        &&& self.bucket_clearing == other.bucket_clearing
        &&& self.checkpoint_pruning_states == other.checkpoint_pruning_states
    }

    /// Removes the bucket entries `ks` (each present once) and the checkpoints they
    /// index; the remaining bucket entries keep their order.
    fn drop_bucketed(&mut self, ks: &Vec<(u64, u64, u64)>)
        requires
            old(self).wf(),
            ks@.no_duplicates(),
            forall|i: int| 0 <= i < ks@.len() ==> old(self).checkpoint_buckets@.contains_key(#[trigger] ks@[i]),
        ensures
            final(self).wf(),
            final(self).checkpoint_buckets@ == old(self).checkpoint_buckets@.remove_keys(ks@.to_set()),
            final(self).checkpoint_buckets.key_seq() == old(self).checkpoint_buckets.key_seq().filter(
                |x: (u64, u64, u64)| !ks@.contains(x),
            ),
            final(self).checkpoints@ == old(self).checkpoints@.remove_keys(
                ks@.map_values(|k: (u64, u64, u64)| indexed_checkpoint(k)).to_set(),
            ),
            final(self).same_except_checkpoints(*old(self)),
    {
        let ghost m0 = self.checkpoints@;
        let ghost f = |k: (u64, u64, u64)| indexed_checkpoint(k);
        let mut j: usize = 0;
        proof {
            assert(m0.remove_keys(ks@.take(0).map_values(f).to_set()) =~= m0);
        }
        while j < ks.len()
            invariant
                self.wf(),
                self.same_except_checkpoints(*old(self)),
                self.checkpoint_buckets == old(self).checkpoint_buckets,
                j <= ks@.len(),
                self.checkpoints@ == m0.remove_keys(ks@.take(j as int).map_values(f).to_set()),
                f == (|k: (u64, u64, u64)| indexed_checkpoint(k)),
            decreases ks@.len() - j,
        {
            let k = ks[j];
            let _ = self.checkpoints.remove(&(k.0, k.2));
            proof {
                assert(ks@.take(j + 1).map_values(f) =~= ks@.take(j as int).map_values(f).push(f(k)));
                ks@.take(j as int).map_values(f).lemma_push_to_set_commute(f(k));
                assert(self.checkpoints@ =~= m0.remove_keys(ks@.take(j + 1).map_values(f).to_set()));
            }
            j = j + 1;
        }
        proof {
            assert(ks@.take(ks@.len() as int) =~= ks@);
        }
        self.checkpoint_buckets.remove_listed(ks);
    }

    /// Reverts `chain_key` to its checkpoint at `checkpoint_height`: all its
    /// attestations (at most twice the checkpoint interval plus the retention) and
    /// queues go, the checkpoints above that height in its bucket go, the rest above
    /// is left for the pruning that starts at the next bucket, and the checkpoint
    /// becomes the last checkpoint and digest. Returns its digest; on error nothing
    /// changes.
    pub fn do_revert_to(
        &mut self,
        chain_key: ChainKey,
        checkpoint_height: u64,
        checkpoint_interval: u32,
        retention: u32,
    ) -> (r: Result<Digest, Error>)
        requires
            old(self).wf(),
            checkpoint_interval * 2 + retention <= u32::MAX,
        ensures
            final(self).wf(),
            ({
                let s = *old(self);
                let limit = checkpoint_interval * 2 + retention;
                if s.attestations.chain_order(chain_key).len() > limit {
                    r == Err::<Digest, Error>(Error::TooManyAttestations) && *final(self) == s
                } else if !s.checkpoints@.contains_key((chain_key, checkpoint_height)) {
                    r == Err::<Digest, Error>(Error::NoSuchCheckpoint) && *final(self) == s
                } else if !s.last_checkpoint@.contains_key(chain_key) {
                    r == Err::<Digest, Error>(Error::LastCheckpointNotSet) && *final(self) == s
                } else {
                    let d = s.checkpoints@[(chain_key, checkpoint_height)];
                    let pivot = bucket_index(checkpoint_height);
                    let above = s.checkpoint_buckets.key_seq().filter(
                        above_in_pivot(chain_key, pivot, checkpoint_height),
                    );
                    let cp = AttestationCheckpoint { block_number: checkpoint_height, digest: d };
                    &&& r == Ok::<Digest, Error>(d)
                    &&& final(self).attestations@ == s.attestations@.remove_keys(
                        s.attestations.chain_keys(chain_key),
                    )
                    &&& final(self).checkpointing_queues@ == s.checkpointing_queues@.remove(chain_key)
                    &&& final(self).attestation_removal_queues@ == s.attestation_removal_queues@.remove(
                        chain_key,
                    )
                    &&& final(self).checkpoint_buckets@ == s.checkpoint_buckets@.remove_keys(above.to_set())
                    &&& final(self).checkpoints@ == s.checkpoints@.remove_keys(
                        above.map_values(|k: (u64, u64, u64)| indexed_checkpoint(k)).to_set(),
                    )
                    &&& final(self).checkpoint_pruning_states@ == s.checkpoint_pruning_states@.insert(
                        chain_key,
                        CheckpointPruningState {
                            stop_height: s.last_checkpoint@[chain_key].block_number,
                            next_pivot: sat_add_u64(pivot, CHECKPOINT_BUCKET_SIZE),
                        },
                    )
                    &&& final(self).last_checkpoint@ == s.last_checkpoint@.insert(chain_key, cp)
                    &&& final(self).last_digest@ == s.last_digest@.insert(chain_key, (checkpoint_height, d))
                    &&& final(self).checkpoint_clearing == s.checkpoint_clearing
                    &&& final(self).bucket_clearing == s.bucket_clearing
                }
            }),
    {
        let limit: u64 = (checkpoint_interval as u64) * 2 + retention as u64;
        let chain_atts = self.attestations.keys_of_chain(chain_key);
        if chain_atts.len() as u64 > limit {
            return Err(Error::TooManyAttestations);
        }
        let digest = match self.checkpoints.get(&(chain_key, checkpoint_height)) {
            Some(d) => *d,
            None => return Err(Error::NoSuchCheckpoint),
        };
        let last = match self.last_checkpoint.get(&chain_key) {
            Some(lc) => *lc,
            None => return Err(Error::LastCheckpointNotSet),
        };
        self.attestations.remove_chain(chain_key);
        let _ = self.checkpointing_queues.remove(&chain_key);
        let _ = self.attestation_removal_queues.remove(&chain_key);
        let pivot = Self::compute_block_index_for(checkpoint_height);
        let in_pivot = self.checkpoint_buckets.keys_of_pivot(chain_key, pivot);
        let mut above: Vec<(u64, u64, u64)> = Vec::new();
        let mut i: usize = 0;
        proof {
            reveal(Seq::filter);
            assert(in_pivot@.take(0).filter(|k: (u64, u64, u64)| k.2 > checkpoint_height) =~= Seq::<
                (u64, u64, u64),
            >::empty());
        }
        while i < in_pivot.len()
            invariant
                i <= in_pivot@.len(),
                above@ == in_pivot@.take(i as int).filter(|k: (u64, u64, u64)| k.2 > checkpoint_height),
            decreases in_pivot@.len() - i,
        {
            let k = in_pivot[i];
            proof {
                assert(in_pivot@.take(i + 1) =~= in_pivot@.take(i as int).push(k));
                in_pivot@.take(i as int).lemma_filter_push(k, |k: (u64, u64, u64)| k.2 > checkpoint_height);
            }
            if k.2 > checkpoint_height {
                above.push(k);
            }
            i = i + 1;
        }
        proof {
            let gt = |k: (u64, u64, u64)| k.2 > checkpoint_height;
            assert(in_pivot@.take(in_pivot@.len() as int) =~= in_pivot@);
            lemma_filter_twice(old(self).checkpoint_buckets.key_seq(), pivot_filter(chain_key, pivot), gt);
            assert((|x: (u64, u64, u64)| pivot_filter(chain_key, pivot)(x) && gt(x)) =~= above_in_pivot(
                chain_key,
                pivot,
                checkpoint_height,
            ));
            crate::keymap::lemma_filter_unique(in_pivot@, gt);
            assert forall|j: int| 0 <= j < above@.len() implies self.checkpoint_buckets@.contains_key(
                #[trigger] above@[j],
            ) by {
                in_pivot@.lemma_filter_pred(gt, j);
                assert(above@.contains(above@[j]));
                in_pivot@.lemma_filter_contains_rev(gt, above@[j]);
            }
        }
        self.drop_bucketed(&above);
        let next_pivot = pivot.saturating_add(CHECKPOINT_BUCKET_SIZE);
        self.checkpoint_pruning_states.insert(
            chain_key,
            CheckpointPruningState { stop_height: last.block_number, next_pivot },
        );
        self.last_checkpoint.insert(chain_key, AttestationCheckpoint { block_number: checkpoint_height, digest });
        self.last_digest.insert(chain_key, (checkpoint_height, digest));
        proof {
            old(self).attestations.lemma_keys_unique();
            assert(old(self).attestations.chain_order(chain_key).len() == chain_atts@.len());
        }
        Ok(digest)
    }
}

impl ChainStore {
    /// One block's pruning of the checkpoints above a revert of `chain_key`, from
    /// `state`: up to [`MAX_CHECKPOINTS_CLEARED_PER_BLOCK`] bucket entries (and the
    /// checkpoints they index) go, pivot by pivot, visiting at most twice that many
    /// pivots; the pruning state is dropped once the pivots pass the stop height,
    /// else stored for the next block.
    pub fn prune_checkpoints_impl(&mut self, chain_key: ChainKey, state: CheckpointPruningState)
        requires
            old(self).wf(),
        ensures
            final(self).wf(),
            ({
                let s = *old(self);
                let batch = MAX_CHECKPOINTS_CLEARED_PER_BLOCK as nat;
                let (gone, left) = prune_pass(s.checkpoint_buckets.key_seq(), chain_key, state, batch, 2 * batch);
                &&& final(self).checkpoint_buckets@ == s.checkpoint_buckets@.remove_keys(gone.to_set())
                &&& final(self).checkpoints@ == s.checkpoints@.remove_keys(
                    gone.map_values(|k: (u64, u64, u64)| indexed_checkpoint(k)).to_set(),
                )
                &&& final(self).checkpoint_pruning_states@ == match left {
                    Some(st) => s.checkpoint_pruning_states@.insert(chain_key, st),
                    None => s.checkpoint_pruning_states@.remove(chain_key),
                }
                &&& final(self).attestations == s.attestations
                &&& final(self).last_checkpoint == s.last_checkpoint
                &&& final(self).checkpointing_queues == s.checkpointing_queues
                &&& final(self).last_digest == s.last_digest
                &&& final(self).attestation_removal_queues == s.attestation_removal_queues
                &&& final(self).checkpoint_clearing == s.checkpoint_clearing
                &&& final(self).bucket_clearing == s.bucket_clearing
            }),
    {
        let ghost f = |k: (u64, u64, u64)| indexed_checkpoint(k);
        let ghost keys0 = self.checkpoint_buckets.key_seq();
        let ghost b0 = self.checkpoint_buckets@;
        let ghost c0 = self.checkpoints@;
        let ghost total = prune_pass(keys0, chain_key, state, 40, 80);
        let ghost mut removed: Seq<(u64, u64, u64)> = Seq::empty();
        let mut st = state;
        let mut remaining_entries: u32 = MAX_CHECKPOINTS_CLEARED_PER_BLOCK;
        let mut remaining_pivots: u32 = MAX_CHECKPOINTS_CLEARED_PER_BLOCK * 2;
        proof {
            assert(keys0.filter(|k: (u64, u64, u64)| !removed.contains(k)) == keys0) by {
                crate::keymap::lemma_filter_keeps_all(keys0, |k: (u64, u64, u64)| !removed.contains(k));
            }
            assert(b0.remove_keys(removed.to_set()) =~= b0);
            assert(c0.remove_keys(removed.map_values(f).to_set()) =~= c0);
            assert(removed + total.0 =~= total.0);
        }
        while remaining_entries > 0 && remaining_pivots > 0
            invariant
                self.wf(),
                self.same_except_checkpoints(*old(self)),
                f == (|k: (u64, u64, u64)| indexed_checkpoint(k)),
                keys0 == old(self).checkpoint_buckets.key_seq(),
                b0 == old(self).checkpoint_buckets@,
                c0 == old(self).checkpoints@,
                total == prune_pass(keys0, chain_key, state, 40, 80),
                self.checkpoint_buckets.key_seq() == keys0.filter(|k: (u64, u64, u64)| !removed.contains(k)),
                self.checkpoint_buckets@ == b0.remove_keys(removed.to_set()),
                self.checkpoints@ == c0.remove_keys(removed.map_values(f).to_set()),
                total.0 == removed + prune_pass(
                    self.checkpoint_buckets.key_seq(),
                    chain_key,
                    st,
                    remaining_entries as nat,
                    remaining_pivots as nat,
                ).0,
                total.1 == prune_pass(
                    self.checkpoint_buckets.key_seq(),
                    chain_key,
                    st,
                    remaining_entries as nat,
                    remaining_pivots as nat,
                ).1,
            decreases remaining_entries as int + remaining_pivots as int,
        {
            if st.next_pivot > st.stop_height {
                let _ = self.checkpoint_pruning_states.remove(&chain_key);
                proof {
                    assert(removed + Seq::<(u64, u64, u64)>::empty() =~= removed);
                }
                return;
            }
            let ghost cur = self.checkpoint_buckets.key_seq();
            let in_pivot = self.checkpoint_buckets.keys_of_pivot(chain_key, st.next_pivot);
            let lim: usize = if in_pivot.len() < remaining_entries as usize {
                in_pivot.len()
            } else {
                remaining_entries as usize
            };
            let mut batch: Vec<(u64, u64, u64)> = Vec::new();
            let mut i: usize = 0;
            while i < lim
                invariant
                    lim <= in_pivot@.len(),
                    i <= lim,
                    batch@ == in_pivot@.take(i as int),
                decreases lim - i,
            {
                batch.push(in_pivot[i]);
                proof {
                    assert(batch@ =~= in_pivot@.take(i + 1));
                }
                i = i + 1;
            }
            proof {
                assert forall|a: int, b: int| 0 <= a < batch@.len() && 0 <= b < batch@.len() && a != b implies batch@[a]
                    != batch@[b] by {
                    assert(batch@[a] == in_pivot@[a] && batch@[b] == in_pivot@[b]);
                }
                assert forall|j: int| 0 <= j < batch@.len() implies self.checkpoint_buckets@.contains_key(
                    #[trigger] batch@[j],
                ) by {
                    assert(batch@[j] == in_pivot@[j]);
                }
            }
            let ghost before = *self;
            self.drop_bucketed(&batch);
            proof {
                let nrem = removed + batch@;
                let pr = |k: (u64, u64, u64)| !removed.contains(k);
                let pb = |k: (u64, u64, u64)| !batch@.contains(k);
                lemma_filter_twice(keys0, pr, pb);
                assert forall|k: (u64, u64, u64)| #[trigger] nrem.contains(k) <==> (removed.contains(k)
                    || batch@.contains(k)) by {
                    if nrem.contains(k) {
                        let t = choose|t: int| 0 <= t < nrem.len() && nrem[t] == k;
                        if t < removed.len() {
                            assert(removed[t] == k);
                        } else {
                            assert(batch@[t - removed.len()] == k);
                        }
                    }
                    if removed.contains(k) {
                        let t = choose|t: int| 0 <= t < removed.len() && removed[t] == k;
                        assert(nrem[t] == k);
                    }
                    if batch@.contains(k) {
                        let t = choose|t: int| 0 <= t < batch@.len() && batch@[t] == k;
                        assert(nrem[removed.len() + t] == k);
                    }
                }
                assert((|x: (u64, u64, u64)| pr(x) && pb(x)) =~= (|k: (u64, u64, u64)| !nrem.contains(k)));
                assert(nrem.to_set() =~= removed.to_set() + batch@.to_set());
                assert(self.checkpoint_buckets@ =~= b0.remove_keys(nrem.to_set()));
                assert(nrem.map_values(f) =~= removed.map_values(f) + batch@.map_values(f));
                crate::keymap::lemma_concat_to_set(removed.map_values(f), batch@.map_values(f));
                assert(self.checkpoints@ =~= c0.remove_keys(nrem.map_values(f).to_set()));
                assert(in_pivot@ == cur.filter(pivot_filter(chain_key, st.next_pivot)));
                removed = nrem;
            }
            let ghost st_before = st;
            let ghost re_before = remaining_entries;
            let ghost rp_before = remaining_pivots;
            remaining_entries = remaining_entries - lim as u32;
            if in_pivot.len() == lim {
                st = CheckpointPruningState {
                    stop_height: st.stop_height,
                    next_pivot: st.next_pivot.saturating_add(CHECKPOINT_BUCKET_SIZE),
                };
                remaining_pivots = remaining_pivots - 1;
                proof {
                    assert(batch@ =~= in_pivot@);
                    let step = prune_pass(cur, chain_key, st_before, re_before as nat, rp_before as nat);
                    assert(removed =~= (removed.subrange(0, removed.len() - batch@.len())) + batch@);
                    assert(total.0 =~= removed + prune_pass(
                        self.checkpoint_buckets.key_seq(),
                        chain_key,
                        st,
                        remaining_entries as nat,
                        remaining_pivots as nat,
                    ).0);
                }
            } else {
                proof {
                    assert(remaining_entries == 0);
                    assert(batch@ =~= in_pivot@.take(re_before as int));
                    assert(total.0 =~= removed + prune_pass(
                        self.checkpoint_buckets.key_seq(),
                        chain_key,
                        st,
                        remaining_entries as nat,
                        remaining_pivots as nat,
                    ).0);
                }
            }
        }
        self.checkpoint_pruning_states.insert(chain_key, st);
        proof {
            assert(removed + Seq::<(u64, u64, u64)>::empty() =~= removed);
        }
    }

    /// Clears up to [`MAX_CHECKPOINTS_CLEARED_PER_BLOCK`] checkpoints of the first
    /// chain whose checkpoints are being cleared, and reports it; the chain leaves
    /// the clearing list once none remain. Returns the number of chains handled.
    pub fn on_init_clear_checkpoints(&mut self, events: &mut Vec<Event>) -> (n: u32)
        requires
            old(self).wf(),
        ensures
            final(self).wf(),
            ({
                let s = *old(self);
                if s.checkpoint_clearing.spec_len() == 0 {
                    &&& n == 0
                    &&& *final(self) == s
                    &&& final(events)@ == old(events)@
                } else {
                    let c = s.checkpoint_clearing.key_seq()[0];
                    let batch = MAX_CHECKPOINTS_CLEARED_PER_BLOCK as u64;
                    &&& n == 1
                    &&& final(self).checkpoints@ == s.checkpoints@.remove_keys(
                        s.checkpoints.first_of_chain(c, batch),
                    )
                    &&& final(self).checkpoint_clearing@ == if s.checkpoints.chain_order(c).len() > batch {
                        s.checkpoint_clearing@
                    } else {
                        s.checkpoint_clearing@.remove(c)
                    }
                    &&& final(self).checkpoint_buckets == s.checkpoint_buckets
                    &&& final(self).bucket_clearing == s.bucket_clearing
                    &&& final(self).checkpoint_pruning_states == s.checkpoint_pruning_states
                    &&& final(self).attestations == s.attestations
                    &&& final(self).last_checkpoint == s.last_checkpoint
                    &&& final(self).checkpointing_queues == s.checkpointing_queues
                    &&& final(self).last_digest == s.last_digest
                    &&& final(self).attestation_removal_queues == s.attestation_removal_queues
                    &&& final(events)@ == old(events)@.push(Event::CheckpointsCleared(c))
                }
            }),
    {
        if self.checkpoint_clearing.len() == 0 {
            return 0;
        }
        let c = *self.checkpoint_clearing.key_at(0);
        let more = self.checkpoints.remove_first_of_chain(c, MAX_CHECKPOINTS_CLEARED_PER_BLOCK as u64);
        if !more {
            let _ = self.checkpoint_clearing.remove(&c);
        }
        events.push(Event::CheckpointsCleared(c));
        1
    }

    /// Clears up to [`MAX_CHECKPOINTS_CLEARED_PER_BLOCK`] bucket entries of the first
    /// chain whose buckets are being cleared; the chain leaves the clearing list once
    /// none remain. Returns the number of chains handled.
    pub fn on_init_clear_buckets(&mut self) -> (n: u32)
        requires
            old(self).wf(),
        ensures
            final(self).wf(),
            ({
                let s = *old(self);
                if s.bucket_clearing.spec_len() == 0 {
                    n == 0 && *final(self) == s
                } else {
                    let c = s.bucket_clearing.key_seq()[0];
                    let batch = MAX_CHECKPOINTS_CLEARED_PER_BLOCK as u64;
                    &&& n == 1
                    &&& final(self).checkpoint_buckets@ == s.checkpoint_buckets@.remove_keys(
                        s.checkpoint_buckets.first_of_chain(c, batch),
                    )
                    &&& final(self).bucket_clearing@ == if s.checkpoint_buckets.chain_order(c).len() > batch {
                        s.bucket_clearing@
                    } else {
                        s.bucket_clearing@.remove(c)
                    }
                    &&& final(self).checkpoints == s.checkpoints
                    &&& final(self).checkpoint_clearing == s.checkpoint_clearing
                    &&& final(self).checkpoint_pruning_states == s.checkpoint_pruning_states
                    &&& final(self).attestations == s.attestations
                    &&& final(self).last_checkpoint == s.last_checkpoint
                    &&& final(self).checkpointing_queues == s.checkpointing_queues
                    &&& final(self).last_digest == s.last_digest
                    &&& final(self).attestation_removal_queues == s.attestation_removal_queues
                }
            }),
    {
        if self.bucket_clearing.len() == 0 {
            return 0;
        }
        let c = *self.bucket_clearing.key_at(0);
        let more = self.checkpoint_buckets.remove_first_of_chain(c, MAX_CHECKPOINTS_CLEARED_PER_BLOCK as u64);
        if !more {
            let _ = self.bucket_clearing.remove(&c);
        }
        1
    }

    /// Runs one block's pruning for the first chain being reverted. Returns the
    /// number of chains handled.
    pub fn on_init_prune_checkpoints(&mut self) -> (n: u32)
        requires
            old(self).wf(),
        ensures
            final(self).wf(),
            old(self).checkpoint_pruning_states.spec_len() == 0 ==> n == 0 && *final(self) == *old(self),
            old(self).checkpoint_pruning_states.spec_len() > 0 ==> {
                let s = *old(self);
                let c = s.checkpoint_pruning_states.key_seq()[0];
                let state = s.checkpoint_pruning_states@[c];
                let batch = MAX_CHECKPOINTS_CLEARED_PER_BLOCK as nat;
                let (gone, left) = prune_pass(s.checkpoint_buckets.key_seq(), c, state, batch, 2 * batch);
                &&& n == 1
                &&& final(self).checkpoint_buckets@ == s.checkpoint_buckets@.remove_keys(gone.to_set())
                &&& final(self).checkpoints@ == s.checkpoints@.remove_keys(
                    gone.map_values(|k: (u64, u64, u64)| indexed_checkpoint(k)).to_set(),
                )
                &&& final(self).checkpoint_pruning_states@ == match left {
                    Some(st) => s.checkpoint_pruning_states@.insert(c, st),
                    None => s.checkpoint_pruning_states@.remove(c),
                }
                &&& final(self).attestations == s.attestations
                &&& final(self).last_checkpoint == s.last_checkpoint
                &&& final(self).checkpointing_queues == s.checkpointing_queues
                &&& final(self).last_digest == s.last_digest
                &&& final(self).attestation_removal_queues == s.attestation_removal_queues
                &&& final(self).checkpoint_clearing == s.checkpoint_clearing
                &&& final(self).bucket_clearing == s.bucket_clearing
            },
    {
        if self.checkpoint_pruning_states.len() == 0 {
            return 0;
        }
        let c = *self.checkpoint_pruning_states.key_at(0);
        let state = *self.checkpoint_pruning_states.value_at(0);
        proof {
            self.checkpoint_pruning_states.lemma_pair_in_view(0);
        }
        self.prune_checkpoints_impl(c, state);
        1
    }

    /// The block hook: clears one batch of checkpoints of a removed chain. Returns the
    /// number of chains handled, which prices the block's work.
    pub fn on_initialize(&mut self, events: &mut Vec<Event>) -> (n: u32)
        requires
            old(self).wf(),
        ensures
            final(self).wf(),
            old(self).checkpoint_clearing.spec_len() == 0 ==> n == 0 && *final(self) == *old(self)
                && final(events)@ == old(events)@,
            old(self).checkpoint_clearing.spec_len() > 0 ==> {
                let s = *old(self);
                let c = s.checkpoint_clearing.key_seq()[0];
                let batch = MAX_CHECKPOINTS_CLEARED_PER_BLOCK as u64;
                &&& n == 1
                &&& final(self).checkpoints@ == s.checkpoints@.remove_keys(s.checkpoints.first_of_chain(c, batch))
                &&& final(self).checkpoint_clearing@ == if s.checkpoints.chain_order(c).len() > batch {
                    s.checkpoint_clearing@
                } else {
                    s.checkpoint_clearing@.remove(c)
                }
                &&& final(self).same_except_checkpoints_and_clearing(s)
                &&& final(self).checkpoint_buckets == s.checkpoint_buckets
                &&& final(events)@ == old(events)@.push(Event::CheckpointsCleared(c))
            },
    {
        self.on_init_clear_checkpoints(events)
    }

    /// Every field but the checkpoints, their bucket index and the checkpoint clearing
    /// list is that of `other`.
    pub open spec fn same_except_checkpoints_and_clearing(&self, other: Self) -> bool {
        &&& self.attestations == other.attestations
        &&& self.last_checkpoint == other.last_checkpoint
        &&& self.checkpointing_queues == other.checkpointing_queues
        &&& self.last_digest == other.last_digest
        &&& self.attestation_removal_queues == other.attestation_removal_queues
        &&& self.bucket_clearing == other.bucket_clearing
        &&& self.checkpoint_pruning_states == other.checkpoint_pruning_states
    }
}

impl ChainStore {
    /// Clears the checkpointing and removal queues and the last digest of
    /// `chain_key`, and up to `FORWARD_PATCH_ATTESTATIONS_CLEAR_BATCH` times
    /// `MAX_FORWARD_PATCH_ATTESTATIONS_CLEAR_LOOPS` of its attestations (the first
    /// ones); refused when more remain.
    pub fn purge_attestations_for_forward_patch(&mut self, chain_key: ChainKey) -> (r: Result<(), Error>)
        requires
            old(self).wf(),
        ensures
            final(self).wf(),
            ({
                let s = *old(self);
                let limit = (FORWARD_PATCH_ATTESTATIONS_CLEAR_BATCH * MAX_FORWARD_PATCH_ATTESTATIONS_CLEAR_LOOPS) as u64;
                &&& final(self).attestations@ == s.attestations@.remove_keys(s.attestations.first_of_chain(chain_key, limit))
                &&& (r is Ok <==> s.attestations.chain_order(chain_key).len() <= limit)
                &&& r is Err ==> r == Err::<(), Error>(Error::TooManyAttestationsForForwardPatchClear)
                &&& final(self).checkpointing_queues@ == s.checkpointing_queues@.remove(chain_key)
                &&& final(self).attestation_removal_queues@ == s.attestation_removal_queues@.remove(chain_key)
                &&& final(self).last_digest@ == s.last_digest@.remove(chain_key)
                &&& final(self).checkpoints == s.checkpoints
                &&& final(self).checkpoint_buckets == s.checkpoint_buckets
                &&& final(self).last_checkpoint == s.last_checkpoint
                &&& final(self).checkpoint_clearing == s.checkpoint_clearing
                &&& final(self).bucket_clearing == s.bucket_clearing
                &&& final(self).checkpoint_pruning_states == s.checkpoint_pruning_states
            }),
    {
        let _ = self.checkpointing_queues.remove(&chain_key);
        let _ = self.attestation_removal_queues.remove(&chain_key);
        let _ = self.last_digest.remove(&chain_key);
        let more = self.attestations.remove_first_of_chain(
            chain_key,
            FORWARD_PATCH_ATTESTATIONS_CLEAR_BATCH * MAX_FORWARD_PATCH_ATTESTATIONS_CLEAR_LOOPS,
        );
        if more {
            Err(Error::TooManyAttestationsForForwardPatchClear)
        } else {
            Ok(())
        }
    }
}

} // verus!
