//! Randomness of the past epochs, kept for the latest epochs only.

use vstd::prelude::*;

use crate::keymap::KeyMap;
use crate::types::Digest;

verus! {

/// The randomness of an epoch: 32 bytes.
pub type Randomness = Digest;

/// Events of the randomness pallet.
#[derive(Clone, Copy, Debug, PartialEq, Eq, Structural)]
pub enum RandomnessEvent {
    StoreRandomnessForEpoch { epoch_index: u64, randomness: Randomness },
}

/// The lowest key of `m`.
pub open spec fn lowest_key(m: Map<u64, Randomness>) -> u64 {
    choose|k: u64| m.contains_key(k) && forall|j: u64| #[trigger] m.contains_key(j) ==> k <= j
}

/// The store after the randomness `r` of epoch `epoch` is recorded in `m`, which holds
/// at most `max` entries: the oldest entry leaves when the store is full, and the new
/// one enters when there is room or its epoch is already there.
pub open spec fn stored(m: Map<u64, Randomness>, max: u32, epoch: u64, r: Randomness) -> Map<u64, Randomness> {
    let m1 = if m.dom().len() >= max && m.dom().len() > 0 {
        m.remove(lowest_key(m))
    } else {
        m
    };
    if m1.dom().len() < max || m1.contains_key(epoch) {
        m1.insert(epoch, r)
    } else {
        m1
    }
}

/// The randomness pallet's state.
pub struct RandomnessPallet {
    pub last_seen_epoch_index: u64,
    pub by_epoch: KeyMap<u64, Randomness>,
    /// Most epochs whose randomness is kept.
    pub max_entries: u32,
}

impl RandomnessPallet {
    pub open spec fn wf(&self) -> bool {
        self.by_epoch.wf()
    }

    /// An empty store keeping at most `max_entries` epochs.
    pub fn new(max_entries: u32) -> (r: Self)
        ensures
            r.wf(),
            r.last_seen_epoch_index == 0,
            r.by_epoch@ == Map::<u64, Randomness>::empty(),
            r.max_entries == max_entries,
    {
        RandomnessPallet { last_seen_epoch_index: 0, by_epoch: KeyMap::new(), max_entries }
    }

    /// The randomness of epoch `epoch_id`, zero when it is not kept.
    pub fn randomness_by_epoch_id(&self, epoch_id: u64) -> (r: Randomness)
        requires
            self.wf(),
        ensures
            r == (if self.by_epoch@.contains_key(epoch_id) {
                self.by_epoch@[epoch_id]
            } else {
                Digest { w0: 0, w1: 0, w2: 0, w3: 0 }
            }),
    {
        match self.by_epoch.get(&epoch_id) {
            Some(r) => *r,
            None => Digest::zero(),
        }
    }

    /// Records the randomness of epoch `epoch_index`, which becomes the last seen one.
    pub fn store_epoch_randomness(&mut self, epoch_index: u64, randomness: Randomness, events: &mut Vec<RandomnessEvent>)
        requires
            old(self).wf(),
        ensures
            final(self).wf(),
            final(self).last_seen_epoch_index == epoch_index,
            final(self).by_epoch@ == stored(old(self).by_epoch@, old(self).max_entries, epoch_index, randomness),
            final(self).max_entries == old(self).max_entries,
            final(events)@ == old(events)@.push(RandomnessEvent::StoreRandomnessForEpoch { epoch_index, randomness }),
    {
        self.last_seen_epoch_index = epoch_index;
        proof {
            self.by_epoch.lemma_len_is_dom_len();
        }
        let ghost m0 = self.by_epoch@;
        if self.by_epoch.len() >= self.max_entries as usize && self.by_epoch.len() > 0 {
            let k = lowest_epoch(&self.by_epoch);
            let _ = self.by_epoch.remove(&k);
            proof {
                let lk = lowest_key(m0);
                assert(m0.contains_key(lk) && forall|j: u64| #[trigger] m0.contains_key(j) ==> lk <= j);
                assert(lk == k);
            }
        }
        proof {
            self.by_epoch.lemma_len_is_dom_len();
        }
        if self.by_epoch.len() < self.max_entries as usize || self.by_epoch.contains_key(&epoch_index) {
            self.by_epoch.insert(epoch_index, randomness);
        }
        events.push(RandomnessEvent::StoreRandomnessForEpoch { epoch_index, randomness });
    }

    /// The start of a block: when the epoch of the chain (`epoch_index`, with its
    /// randomness `randomness`) is newer than the last seen one, its randomness is
    /// recorded. Returns whether it was, so that the listeners learn of it.
    pub fn on_initialize(&mut self, epoch_index: u64, randomness: Randomness, events: &mut Vec<RandomnessEvent>) -> (new_epoch: bool)
        requires
            old(self).wf(),
        ensures
            final(self).wf(),
            new_epoch == (epoch_index > old(self).last_seen_epoch_index),
            new_epoch ==> final(self).last_seen_epoch_index == epoch_index && final(self).by_epoch@ == stored(
                old(self).by_epoch@,
                old(self).max_entries,
                epoch_index,
                randomness,
            ) && final(events)@ == old(events)@.push(
                RandomnessEvent::StoreRandomnessForEpoch { epoch_index, randomness },
            ),
            !new_epoch ==> *final(self) == *old(self) && final(events)@ == old(events)@,
            final(self).max_entries == old(self).max_entries,
    {
        if epoch_index > self.last_seen_epoch_index {
            self.store_epoch_randomness(epoch_index, randomness, events);
            true
        } else {
            false
        }
    }
}

/// The lowest epoch of a non-empty store.
pub fn lowest_epoch(m: &KeyMap<u64, Randomness>) -> (k: u64)
    requires
        m.wf(),
        m.spec_len() > 0,
    ensures
        m@.contains_key(k),
        forall|j: u64| #[trigger] m@.contains_key(j) ==> k <= j,
{
    let n = m.len();
    let mut best = *m.key_at(0);
    let ghost mut bi: int = 0;
    let mut i: usize = 1;
    while i < n
        invariant
            m.wf(),
            n == m.spec_len(),
            1 <= i <= n,
            0 <= bi < n,
            best == m.pairs()[bi].0,
            forall|j: int| 0 <= j < i ==> best <= #[trigger] m.pairs()[j].0,
        decreases n - i,
    {
        let k = *m.key_at(i);
        if k < best {
            best = k;
            proof {
                bi = i as int;
            }
        }
        i = i + 1;
    }
    proof {
        m.lemma_pair_in_view(bi);
        assert forall|j: u64| #[trigger] m@.contains_key(j) implies best <= j by {
            assert(m.pairs()[m.idx(j)].0 == j);
        }
    }
    best
}

/// `kept` holds the entries of `m` with the `max` highest epochs (all of them when
/// there are fewer).
pub open spec fn keeps_latest(m: Map<u64, Randomness>, kept: Map<u64, Randomness>, max: u32) -> bool {
    &&& kept.dom().subset_of(m.dom())
    &&& forall|k: u64| #[trigger] kept.contains_key(k) ==> kept[k] == m[k]
    &&& kept.dom().len() == if m.dom().len() < max { m.dom().len() } else { max as nat }
    &&& forall|a: u64, b: u64| #[trigger] kept.contains_key(a) && #[trigger] m.contains_key(b) && !kept.contains_key(b)
        ==> b < a
}

/// The randomness of the legacy store `legacy` (one entry per epoch) reduced to the
/// `max` latest epochs, as the bounded store keeps it.
pub fn migrate_randomness(legacy: &KeyMap<u64, Randomness>, max: u32) -> (kept: KeyMap<u64, Randomness>)
    requires
        legacy.wf(),
    ensures
        kept.wf(),
        keeps_latest(legacy@, kept@, max),
{
    let mut kept: KeyMap<u64, Randomness> = KeyMap::new();
    let mut below: Option<u64> = None;
    let mut t: u32 = 0;
    proof {
        legacy.lemma_len_is_dom_len();
    }
    loop
        invariant
            legacy.wf(),
            kept.wf(),
            legacy@.dom().finite(),
            t <= max,
            kept@.dom().finite(),
            kept@.dom().len() == t,
            forall|k: u64| #[trigger] kept@.contains_key(k) <==> (legacy@.contains_key(k) && match below {
                Some(b) => k >= b,
                None => false,
            }),
            forall|k: u64| #[trigger] kept@.contains_key(k) ==> kept@[k] == legacy@[k],
            below is None <==> t == 0,
        ensures
            keeps_latest(legacy@, kept@, max),
        decreases (match below {
            Some(b) => b as int,
            None => u64::MAX as int + 1,
        }),
    {
        if t == max {
            proof {
                assert(kept@.dom().subset_of(legacy@.dom()));
                vstd::set_lib::lemma_len_subset(kept@.dom(), legacy@.dom());
            }
            break;
        }
        match next_below(legacy, below) {
            None => {
                proof {
                    assert(kept@.dom() =~= legacy@.dom());
                }
                break;
            },
            Some((k, r)) => {
                proof {
                    assert(!kept@.contains_key(k));
                }
                kept.insert(k, r);
                t = t + 1;
                proof {
                    assert forall|x: u64| #[trigger] kept@.contains_key(x) <==> (legacy@.contains_key(x) && x >= k) by {
                        if legacy@.contains_key(x) && x >= k && x != k {
                            assert(match below {
                                Some(b) => x >= b,
                                None => false,
                            } || !(match below {
                                Some(b) => x < b,
                                None => true,
                            }));
                        }
                    }
                }
                below = Some(k);
            },
        }
    }
    kept
}

/// The storage version that keeps the randomness in one bounded store.
pub const BOUNDED_RANDOMNESS_STORAGE_VERSION: u16 = 1;

/// The storage reads and writes a randomness migration made.
pub struct RandomnessMigrationOutcome {
    pub reads: u64,
    pub writes: u64,
}

/// The migration of the legacy store of randomness (one entry per epoch) to the
/// bounded store.
pub struct MigrateRandomnessByEpochIndexV0ToV1;

impl MigrateRandomnessByEpochIndexV0ToV1 {
    /// Runs the migration on storage of version `*version`: storage already at the
    /// target version is left alone (one read); otherwise the legacy store `legacy` is
    /// drained, the `max_entries` latest epochs of it become the pallet's store, and
    /// the version is bumped (a read and a write per legacy entry, one more read for
    /// the version and two more writes for the new store and the version).
    pub fn on_runtime_upgrade(
        version: &mut u16,
        legacy: &mut KeyMap<u64, Randomness>,
        pallet: &mut RandomnessPallet,
    ) -> (o: RandomnessMigrationOutcome)
        requires
            old(legacy).wf(),
            old(pallet).wf(),
            old(legacy)@.dom().len() + 2 <= u64::MAX,
        ensures
            final(legacy).wf(),
            final(pallet).wf(),
            *old(version) >= BOUNDED_RANDOMNESS_STORAGE_VERSION ==> {
                &&& *final(version) == *old(version)
                &&& *final(legacy) == *old(legacy)
                &&& *final(pallet) == *old(pallet)
                &&& o.reads == 1
                &&& o.writes == 0
            },
            *old(version) < BOUNDED_RANDOMNESS_STORAGE_VERSION ==> {
                &&& *final(version) == BOUNDED_RANDOMNESS_STORAGE_VERSION
                &&& final(legacy)@ == Map::<u64, Randomness>::empty()
                &&& keeps_latest(old(legacy)@, final(pallet).by_epoch@, old(pallet).max_entries)
                &&& final(pallet).last_seen_epoch_index == old(pallet).last_seen_epoch_index
                &&& final(pallet).max_entries == old(pallet).max_entries
                &&& o.reads == old(legacy)@.dom().len() + 1
                &&& o.writes == old(legacy)@.dom().len() + 2
            },
    {
        if *version >= BOUNDED_RANDOMNESS_STORAGE_VERSION {
            return RandomnessMigrationOutcome { reads: 1, writes: 0 };
        }
        proof {
            legacy.lemma_len_is_dom_len();
        }
        let drained = legacy.len() as u64;
        let kept = migrate_randomness(legacy, pallet.max_entries);
        legacy.clear();
        pallet.by_epoch = kept;
        *version = BOUNDED_RANDOMNESS_STORAGE_VERSION;
        RandomnessMigrationOutcome { reads: drained + 1, writes: drained + 2 }
    }
}

/// The entry of `m` with the highest epoch below `below` (any epoch when `None`).
pub fn next_below(m: &KeyMap<u64, Randomness>, below: Option<u64>) -> (r: Option<(u64, Randomness)>)
    requires
        m.wf(),
    ensures
        match r {
            None => forall|c: u64| #[trigger] m@.contains_key(c) ==> match below {
                Some(b) => c >= b,
                None => false,
            },
            Some((k, v)) => {
                &&& m@.contains_key(k)
                &&& m@[k] == v
                &&& match below {
                    Some(b) => k < b,
                    None => true,
                }
                &&& forall|c: u64| #[trigger] m@.contains_key(c) && match below {
                    Some(b) => c < b,
                    None => true,
                } ==> c <= k
            },
        },
{
    let n = m.len();
    let mut best: Option<(u64, Randomness)> = None;
    let ghost mut bi: int = 0;
    let mut i: usize = 0;
    while i < n
        invariant
            m.wf(),
            n == m.spec_len(),
            i <= n,
            match best {
                None => forall|j: int| 0 <= j < i ==> !match below {
                    Some(b) => #[trigger] m.pairs()[j].0 < b,
                    None => true,
                },
                Some(bv) => {
                    &&& 0 <= bi < n
                    &&& bv == m.pairs()[bi]
                    &&& match below {
                        Some(b) => bv.0 < b,
                        None => true,
                    }
                    &&& forall|j: int| 0 <= j < i && match below {
                        Some(b) => #[trigger] m.pairs()[j].0 < b,
                        None => true,
                    } ==> m.pairs()[j].0 <= bv.0
                },
            },
        decreases n - i,
    {
        let k = *m.key_at(i);
        let ok = match below {
            None => true,
            Some(b) => k < b,
        };
        if ok {
            match best {
                None => {
                    best = Some((k, *m.value_at(i)));
                    proof {
                        bi = i as int;
                    }
                },
                Some(bv) => {
                    if k > bv.0 {
                        best = Some((k, *m.value_at(i)));
                        proof {
                            bi = i as int;
                        }
                    }
                },
            }
        }
        i = i + 1;
    }
    proof {
        match best {
            None => {
                assert forall|c: u64| #[trigger] m@.contains_key(c) implies match below {
                    Some(b) => c >= b,
                    None => false,
                } by {
                    assert(m.pairs()[m.idx(c)].0 == c);
                }
            },
            Some(bv) => {
                m.lemma_pair_in_view(bi);
                assert forall|c: u64| #[trigger] m@.contains_key(c) && match below {
                    Some(b) => c < b,
                    None => true,
                } implies c <= bv.0 by {
                    assert(m.pairs()[m.idx(c)].0 == c);
                }
            },
        }
    }
    best
}

} // verus!
