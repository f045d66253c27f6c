use vstd::prelude::*;

use crate::attestation::model::{AttestationCheckpoint, CheckpointPruningState, Error, Event, SignedAttestation};
use crate::keymap::KeyMap;
use crate::types::{ChainKey, Digest, KeyEq};

verus! {

/// Amount of blocks tracked in a single checkpoint bucket.
pub const CHECKPOINT_BUCKET_SIZE: u64 = 1000;

/// Number of checkpoints (and of bucket entries) cleared per block.
pub const MAX_CHECKPOINTS_CLEARED_PER_BLOCK: u32 = 40;

/// Most checkpoints above a forward patch that the patch may wipe.
pub const MAX_CHECKPOINT_SUFFIX_WIPE_TOTAL: usize = 4096;

/// Attestations cleared per batch when a forward patch purges a chain.
pub const FORWARD_PATCH_ATTESTATIONS_CLEAR_BATCH: u64 = 128;

/// Batches of attestations a forward patch may clear.
pub const MAX_FORWARD_PATCH_ATTESTATIONS_CLEAR_LOOPS: u64 = 512;

/// The bucket pivot of `block_number`: the block number rounded down to a multiple
/// of [`CHECKPOINT_BUCKET_SIZE`].
pub open spec fn bucket_index(block_number: u64) -> u64 {
    (block_number - block_number % CHECKPOINT_BUCKET_SIZE) as u64
}

/// `interval * checkpoints`, saturated at `u64::MAX`: the number of blocks between
/// two checkpoints.
pub open spec fn checkpoint_width(attestation_interval: u64, checkpoint_interval: u32) -> int {
    if attestation_interval * checkpoint_interval <= u64::MAX {
        attestation_interval * checkpoint_interval
    } else {
        u64::MAX as int
    }
}

/// The next checkpoint block after `last`: `last + width` (saturated at `u64::MAX`)
/// rounded down to a multiple of `width`.
pub open spec fn checkpoint_target(last: u64, width: int) -> int {
    let next = if last + width <= u64::MAX {
        last + width
    } else {
        u64::MAX as int
    };
    next - next % width
}

/// Outcome of walking the checkpointing queue from position `i` towards the block
/// `target`: the number of queue entries condensed into the checkpoint, and the
/// checkpoint; or why no checkpoint can be made.
pub open spec fn checkpoint_scan(
    atts: Map<(ChainKey, Digest), SignedAttestation>,
    chain_key: ChainKey,
    queue: Seq<Digest>,
    target: int,
    i: int,
) -> Result<(int, AttestationCheckpoint), Error>
    decreases queue.len() - i,
{
    if i < 0 || i >= queue.len() {
        Err(Error::CheckpointingQueueDrained)
    } else if !atts.contains_key((chain_key, queue[i])) {
        Err(Error::AttestationNotFound)
    } else {
        let a = atts[(chain_key, queue[i])];
        if a.header_number < target {
            checkpoint_scan(atts, chain_key, queue, target, i + 1)
        } else if a.header_number == target {
            Ok((i + 1, AttestationCheckpoint { block_number: a.header_number, digest: a.digest }))
        } else {
            match a.continuity_proof.spec_digest_for_block(
                a.continuity_proof.spec_start_block_number(a.header_number),
                target,
            ) {
                Some(d) => Ok((i, AttestationCheckpoint { block_number: target as u64, digest: d })),
                None => Err(Error::CheckpointTargetNotFound),
            }
        }
    }
}

/// The number of oldest entries that a removal queue of length `len` drops to keep
/// at most `retention` entries.
pub open spec fn excess(len: nat, retention: u32) -> int {
    if len > retention {
        len - retention
    } else {
        0
    }
}

/// `atts` without the attestations of `chain_key` whose digests are in `ds`.
pub open spec fn without_attestations(
    atts: Map<(ChainKey, Digest), SignedAttestation>,
    chain_key: ChainKey,
    ds: Seq<Digest>,
) -> Map<(ChainKey, Digest), SignedAttestation> {
    atts.remove_keys(Set::new(|k: (ChainKey, Digest)| k.0 == chain_key && ds.contains(k.1)))
}

/// `a - b`, or zero when `b` exceeds `a`.
pub open spec fn sat_sub_u64(a: u64, b: u64) -> int {
    if a >= b {
        a - b
    } else {
        0
    }
}

/// What `try_make_checkpoint` decides for an attestation of `header` given the last
/// checkpoint `last` (if any): an error, no checkpoint yet (`Ok(None)`), or the
/// number of queue entries condensed and the new checkpoint.
pub open spec fn checkpoint_decision(
    atts: Map<(ChainKey, Digest), SignedAttestation>,
    last: Option<AttestationCheckpoint>,
    chain_key: ChainKey,
    queue: Seq<Digest>,
    header: u64,
    attestation_interval: u64,
    checkpoint_interval: u32,
) -> Result<Option<(int, AttestationCheckpoint)>, Error> {
    let width = checkpoint_width(attestation_interval, checkpoint_interval);
    match last {
        None => Err(Error::LastCheckpointEmpty),
        Some(lc) => if width == 0 {
            Err(Error::CheckpointWidthIsZero)
        } else if sat_sub_u64(header, lc.block_number) < 2 * width {
            Ok(None)
        } else {
            match checkpoint_scan(
                atts,
                chain_key,
                queue,
                checkpoint_target(lc.block_number, width),
                0,
            ) {
                Ok(x) => Ok(Some(x)),
                Err(e) => Err(e),
            }
        },
    }
}

/// The digest that attestation `a` (whose own digest is `a_digest`) gives for block
/// `b`: its own digest for the attested block, else that of block `b` of its
/// continuity proof.
pub open spec fn att_block_digest(a: SignedAttestation, a_digest: Digest, b: int) -> Option<Digest> {
    if b == a.header_number {
        Some(a_digest)
    } else {
        a.continuity_proof.spec_digest_for_block(
            a.continuity_proof.spec_start_block_number(a.header_number),
            b,
        )
    }
}

/// The digest of block `b` known from the stored attestations of the queued digests
/// `queue`, the first attestation that knows it winning.
pub open spec fn queued_block_digest(
    atts: Map<(ChainKey, Digest), SignedAttestation>,
    chain_key: ChainKey,
    queue: Seq<Digest>,
    b: int,
) -> Option<Digest>
    decreases queue.len(),
{
    if queue.len() == 0 {
        None
    } else {
        match queued_block_digest(atts, chain_key, queue.drop_last(), b) {
            Some(d) => Some(d),
            None => if atts.contains_key((chain_key, queue.last())) {
                let qa = atts[(chain_key, queue.last())];
                att_block_digest(qa, qa.digest, b)
            } else {
                None
            },
        }
    }
}

/// The digest of block `b` as seen when catching up from attestation `a`: first from
/// `a` itself, then from the queued attestations.
pub open spec fn boundary_digest(
    atts: Map<(ChainKey, Digest), SignedAttestation>,
    chain_key: ChainKey,
    a: SignedAttestation,
    a_digest: Digest,
    queue: Seq<Digest>,
    b: int,
) -> Option<Digest> {
    match att_block_digest(a, a_digest, b) {
        Some(d) => Some(d),
        None => queued_block_digest(atts, chain_key, queue, b),
    }
}

/// The checkpoints placed at every checkpoint boundary after block `last` up to the
/// attested block `head`, oldest first; an error when a boundary's digest is unknown.
pub open spec fn catchup_checkpoints(
    atts: Map<(ChainKey, Digest), SignedAttestation>,
    chain_key: ChainKey,
    a: SignedAttestation,
    a_digest: Digest,
    queue: Seq<Digest>,
    width: int,
    head: int,
    last: u64,
) -> Result<Seq<AttestationCheckpoint>, Error>
    decreases head - last,
{
    let t = checkpoint_target(last, width);
    if width <= 0 || t > head || t <= last || t > u64::MAX {
        Ok(Seq::empty())
    } else {
        match boundary_digest(atts, chain_key, a, a_digest, queue, t) {
            None => Err(Error::CheckpointCreationError),
            Some(d) => match catchup_checkpoints(
                atts,
                chain_key,
                a,
                a_digest,
                queue,
                width,
                head,
                t as u64,
            ) {
                Ok(rest) => Ok(seq![AttestationCheckpoint { block_number: t as u64, digest: d }] + rest),
                Err(e) => Err(e),
            },
        }
    }
}

/// What catching up from attestation `a` decides: an error, or the checkpoints to
/// create (none when `a` does not span two checkpoint widths).
pub open spec fn catchup_plan(
    atts: Map<(ChainKey, Digest), SignedAttestation>,
    last: Option<AttestationCheckpoint>,
    chain_key: ChainKey,
    a: SignedAttestation,
    a_digest: Digest,
    queue: Seq<Digest>,
    attestation_interval: u64,
    checkpoint_interval: u32,
) -> Result<Seq<AttestationCheckpoint>, Error> {
    let width = checkpoint_width(attestation_interval, checkpoint_interval);
    if a.continuity_proof.spec_len() == 0 {
        Ok(Seq::empty())
    } else {
        match last {
            None => Err(Error::LastCheckpointEmpty),
            Some(lc) => if width == 0 {
                Err(Error::CheckpointWidthIsZero)
            } else if a.continuity_proof.spec_len() < 2 * width {
                Ok(Seq::empty())
            } else {
                catchup_checkpoints(
                    atts,
                    chain_key,
                    a,
                    a_digest,
                    queue,
                    width,
                    a.header_number as int,
                    lc.block_number,
                )
            },
        }
    }
}

/// Catching up from an attestation of `head` ends: `head` lies below the last
/// checkpoint boundary that a `u64` block number can reach.
pub open spec fn catchup_terminates(
    a: SignedAttestation,
    attestation_interval: u64,
    checkpoint_interval: u32,
) -> bool {
    let width = checkpoint_width(attestation_interval, checkpoint_interval);
    a.continuity_proof.spec_len() == 0 || width == 0 || a.continuity_proof.spec_len() < 2 * width
        || a.header_number < checkpoint_target(u64::MAX, width)
}

/// `m` with the checkpoints `cps` of `chain_key` stored, in order.
pub open spec fn with_checkpoints(
    m: Map<(ChainKey, u64), Digest>,
    chain_key: ChainKey,
    cps: Seq<AttestationCheckpoint>,
) -> Map<(ChainKey, u64), Digest>
    decreases cps.len(),
{
    if cps.len() == 0 {
        m
    } else {
        with_checkpoints(m, chain_key, cps.drop_last()).insert(
            (chain_key, cps.last().block_number),
            cps.last().digest,
        )
    }
}

/// `m` with the bucket entries of the checkpoints `cps` of `chain_key`.
pub open spec fn with_bucket_entries(
    m: Map<(ChainKey, u64, u64), ()>,
    chain_key: ChainKey,
    cps: Seq<AttestationCheckpoint>,
) -> Map<(ChainKey, u64, u64), ()>
    decreases cps.len(),
{
    if cps.len() == 0 {
        m
    } else {
        with_bucket_entries(m, chain_key, cps.drop_last()).insert(
            (chain_key, bucket_index(cps.last().block_number), cps.last().block_number),
            (),
        )
    }
}

/// The `CheckpointReached` events of the checkpoints `cps` of `chain_key`.
pub open spec fn checkpoint_events(chain_key: ChainKey, cps: Seq<AttestationCheckpoint>) -> Seq<Event> {
    cps.map_values(|c: AttestationCheckpoint| Event::CheckpointReached(chain_key, c))
}

/// The checkpoints of `input` that an import stores, in order: those whose block has
/// no checkpoint yet and lies below the last checkpoint (any block when the chain
/// has neither checkpoints nor attestations). Importing into a chain that has
/// attestations but no checkpoint is refused.
pub open spec fn imported_checkpoints(
    stored: Map<(ChainKey, u64), Digest>,
    chain_key: ChainKey,
    has_attestations: bool,
    last: Option<AttestationCheckpoint>,
    input: Seq<AttestationCheckpoint>,
) -> Result<Seq<AttestationCheckpoint>, Error>
    decreases input.len(),
{
    if input.len() == 0 {
        Ok(Seq::empty())
    } else {
        match imported_checkpoints(stored, chain_key, has_attestations, last, input.drop_last()) {
            Err(e) => Err(e),
            Ok(imp) => {
                let c = input.last();
                if with_checkpoints(stored, chain_key, imp).contains_key((chain_key, c.block_number)) {
                    Ok(imp)
                } else if last is Some && c.block_number >= last->0.block_number {
                    Ok(imp)
                } else if last is None && has_attestations {
                    Err(Error::LastCheckpointNotSet)
                } else {
                    Ok(imp.push(c))
                }
            },
        }
    }
}

/// The checkpoint of `cps` with the highest block number, the first such one.
pub open spec fn highest_checkpoint(cps: Seq<AttestationCheckpoint>) -> Option<AttestationCheckpoint>
    decreases cps.len(),
{
    if cps.len() == 0 {
        None
    } else {
        match highest_checkpoint(cps.drop_last()) {
            None => Some(cps.last()),
            Some(m) => if cps.last().block_number > m.block_number {
                Some(cps.last())
            } else {
                Some(m)
            },
        }
    }
}

/// The checkpoints of a forward patch by block number, a later entry for a block
/// replacing an earlier one.
pub open spec fn patch_entries(input: Seq<AttestationCheckpoint>) -> Map<u64, Digest>
    decreases input.len(),
{
    if input.len() == 0 {
        Map::empty()
    } else {
        patch_entries(input.drop_last()).insert(input.last().block_number, input.last().digest)
    }
}

/// The highest block number of a forward patch.
pub open spec fn patch_tip(input: Seq<AttestationCheckpoint>) -> u64 {
    choose|b: u64| patch_entries(input).contains_key(b) && forall|c: u64| #[trigger] patch_entries(input).contains_key(c) ==> c <= b
}

/// The heights of the checkpoints of `chain_key` above block `above`.
pub open spec fn suffix_heights(m: Map<(ChainKey, u64), Digest>, chain_key: ChainKey, above: u64) -> Set<u64> {
    Set::new(|h: u64| m.contains_key((chain_key, h)) && h > above)
}

/// The checkpoints `m` (by block number) as checkpoints of `chain_key`.
pub open spec fn lift_checkpoints(chain_key: ChainKey, m: Map<u64, Digest>) -> Map<(ChainKey, u64), Digest> {
    Map::new(|k: (ChainKey, u64)| k.0 == chain_key && m.contains_key(k.1), |k: (ChainKey, u64)| m[k.1])
}

/// The bucket entries of the checkpoints `m` (by block number) of `chain_key`.
pub open spec fn lift_buckets(chain_key: ChainKey, m: Map<u64, Digest>) -> Map<(ChainKey, u64, u64), ()> {
    Map::new(
        |k: (ChainKey, u64, u64)| k.0 == chain_key && m.contains_key(k.2) && k.1 == bucket_index(k.2),
        |k: (ChainKey, u64, u64)| (),
    )
}

/// `cps` lists the entries of `m` by ascending block number.
pub open spec fn ascending_listing(cps: Seq<AttestationCheckpoint>, m: Map<u64, Digest>) -> bool {
    &&& cps.len() == m.dom().len()
    &&& forall|i: int| 0 <= i < cps.len() ==> #[trigger] m.contains_key(cps[i].block_number) && m[cps[i].block_number] == cps[i].digest
    &&& forall|i: int, j: int| 0 <= i < j < cps.len() ==> #[trigger] cps[i].block_number < #[trigger] cps[j].block_number
}

/// Whether block `k` lies above `prev` (every block lies above `None`).
pub open spec fn above_prev(prev: Option<u64>, k: u64) -> bool {
    prev is None || k > prev->0
}

/// The entries of `m` at or below `prev`.
pub open spec fn listed_part(m: Map<u64, Digest>, prev: Option<u64>) -> Map<u64, Digest> {
    m.restrict(Set::new(|k: u64| !above_prev(prev, k)))
}

/// The checkpoint keys of `chain_key` at the heights `hs`.
pub open spec fn height_keys(chain_key: ChainKey, hs: Set<u64>) -> Set<(ChainKey, u64)> {
    Set::new(|k: (ChainKey, u64)| k.0 == chain_key && hs.contains(k.1))
}

/// The bucket keys of the checkpoints of `chain_key` at the heights `hs`.
pub open spec fn height_bucket_keys(chain_key: ChainKey, hs: Set<u64>) -> Set<(ChainKey, u64, u64)> {
    Set::new(|k: (ChainKey, u64, u64)| k.0 == chain_key && hs.contains(k.2) && k.1 == bucket_index(k.2))
}

/// The header number of the finalized point whose digest is `d`: a stored
/// attestation with that digest, else the last checkpoint when its digest is `d`.
pub open spec fn finalized_header(
    atts: Map<(ChainKey, Digest), SignedAttestation>,
    last: Option<AttestationCheckpoint>,
    chain_key: ChainKey,
    d: Digest,
) -> Option<u64> {
    if atts.contains_key((chain_key, d)) {
        Some(atts[(chain_key, d)].header_number)
    } else {
        match last {
            Some(cp) => if cp.digest == d {
                Some(cp.block_number)
            } else {
                None
            },
            None => None,
        }
    }
}

/// The digest of the latest finalized point of a chain: its last attestation, else its
/// last checkpoint.
pub open spec fn last_finalized_digest(
    last_digest: Option<(u64, Digest)>,
    last: Option<AttestationCheckpoint>,
) -> Option<Digest> {
    match last_digest {
        Some(ld) => Some(ld.1),
        None => match last {
            Some(cp) => Some(cp.digest),
            None => None,
        },
    }
}

/// Whether attestation `a` links to the finalized state of its chain: the genesis
/// attestation has no previous digest; any other names a non-zero previous digest
/// that either is the latest finalized digest, directly one block below `a` (empty
/// proof), or is reached through `a`'s continuity proof, whose oldest block follows a
/// finalized point and whose newest block is the previous digest.
pub open spec fn continuity_check(
    atts: Map<(ChainKey, Digest), SignedAttestation>,
    last: Option<AttestationCheckpoint>,
    last_digest: Option<(u64, Digest)>,
    genesis: u64,
    a: SignedAttestation,
) -> Result<(), Error> {
    let ck = a.chain_key;
    if a.header_number == genesis {
        if a.prev_digest is None {
            Ok(())
        } else {
            Err(Error::InvalidAttestationPrevDigest)
        }
    } else if a.prev_digest is None || a.prev_digest->0.spec_is_zero() {
        Err(Error::InvalidAttestationPrevDigest)
    } else {
        let prev = a.prev_digest->0;
        match last_finalized_digest(last_digest, last) {
            None => Err(Error::NoFinalizedAttestation),
            Some(lf) => if prev == lf && a.continuity_proof.spec_len() == 0 {
                match finalized_header(atts, last, ck, prev) {
                    None => Err(Error::InvalidAttestationPrevDigest),
                    Some(h) => if a.header_number == h + 1 {
                        Ok(())
                    } else {
                        Err(Error::InvalidAttestationPrevDigest)
                    },
                }
            } else if a.continuity_proof.spec_len() == 0 {
                Err(Error::EmptyContinuityProof)
            } else {
                let tail = a.continuity_proof.spec_start_block_number(a.header_number);
                match finalized_header(atts, last, ck, a.continuity_proof.lower_endpoint_digest) {
                    None => Err(Error::InvalidAttestationContinuityProofTail),
                    Some(h) => if h + 1 != tail {
                        Err(Error::InvalidAttestationContinuityProofTail)
                    } else if a.continuity_proof.spec_continuity_digest() != prev {
                        Err(Error::InvalidAttestationContinuityProofHead)
                    } else {
                        Ok(())
                    },
                }
            },
        }
    }
}

/// Whether `a` repeats a stored attestation or does not lie above the last checkpoint.
pub open spec fn is_duplicate(
    atts: Map<(ChainKey, Digest), SignedAttestation>,
    last: Option<AttestationCheckpoint>,
    a: SignedAttestation,
) -> bool {
    atts.contains_key((a.chain_key, a.digest)) || (last is Some && a.header_number
        <= last->0.block_number)
}

/// The attestation chain's persisted state: attestations, checkpoints, their bucket
/// index, and the queues that drive checkpointing and pruning.
pub struct ChainStore {
    pub attestations: KeyMap<(ChainKey, Digest), SignedAttestation>,
    pub checkpoints: KeyMap<(ChainKey, u64), Digest>,
    /// Index of the checkpoints by `(chain_key, bucket pivot, block_number)`.
    pub checkpoint_buckets: KeyMap<(ChainKey, u64, u64), ()>,
    pub last_checkpoint: KeyMap<ChainKey, AttestationCheckpoint>,
    pub checkpointing_queues: KeyMap<ChainKey, Vec<Digest>>,
    pub last_digest: KeyMap<ChainKey, (u64, Digest)>,
    pub attestation_removal_queues: KeyMap<ChainKey, Vec<Digest>>,
    /// Chains whose checkpoints are being cleared a few per block.
    pub checkpoint_clearing: KeyMap<ChainKey, ()>,
    /// Chains whose checkpoint buckets are being cleared a few per block.
    pub bucket_clearing: KeyMap<ChainKey, ()>,
    pub checkpoint_pruning_states: KeyMap<ChainKey, CheckpointPruningState>,
}

impl ChainStore {
    pub open spec fn wf(&self) -> bool {
        &&& self.attestations.wf()
        &&& self.checkpoints.wf()
        &&& self.checkpoint_buckets.wf()
        &&& self.last_checkpoint.wf()
        &&& self.checkpointing_queues.wf()
        &&& self.last_digest.wf()
        &&& self.attestation_removal_queues.wf()
        &&& self.checkpoint_clearing.wf()
        &&& self.bucket_clearing.wf()
        &&& self.checkpoint_pruning_states.wf()
    }

    /// Every field but the attestations is that of `other`.
    pub open spec fn same_except_attestations(&self, other: Self) -> bool {
        &&& self.checkpoints == other.checkpoints
        &&& self.checkpoint_buckets == other.checkpoint_buckets
        &&& self.last_checkpoint == other.last_checkpoint
        &&& self.checkpointing_queues == other.checkpointing_queues
        &&& self.last_digest == other.last_digest
        &&& self.attestation_removal_queues == other.attestation_removal_queues
        &&& self.checkpoint_clearing == other.checkpoint_clearing
        &&& self.bucket_clearing == other.bucket_clearing
        &&& self.checkpoint_pruning_states == other.checkpoint_pruning_states
    }

    /// The removal queue of `chain_key` (empty when absent).
    pub open spec fn removal_queue(&self, chain_key: ChainKey) -> Seq<Digest> {
        if self.attestation_removal_queues@.contains_key(chain_key) {
            self.attestation_removal_queues@[chain_key]@
        } else {
            Seq::empty()
        }
    }

    /// The checkpointing queue of `chain_key` (empty when absent).
    pub open spec fn checkpointing_queue(&self, chain_key: ChainKey) -> Seq<Digest> {
        if self.checkpointing_queues@.contains_key(chain_key) {
            self.checkpointing_queues@[chain_key]@
        } else {
            Seq::empty()
        }
    }

    /// An empty store.
    pub fn new() -> (s: Self)
        ensures
            s.wf(),
            s.attestations@ == Map::<(ChainKey, Digest), SignedAttestation>::empty(),
            s.checkpoints@ == Map::<(ChainKey, u64), Digest>::empty(),
            s.last_checkpoint@ == Map::<ChainKey, AttestationCheckpoint>::empty(),
            s.last_digest@ == Map::<ChainKey, (u64, Digest)>::empty(),
            s.checkpoint_buckets@ == Map::<(ChainKey, u64, u64), ()>::empty(),
            s.checkpointing_queues@ == Map::<ChainKey, Vec<Digest>>::empty(),
            s.attestation_removal_queues@ == Map::<ChainKey, Vec<Digest>>::empty(),
            s.checkpoint_clearing@ == Map::<ChainKey, ()>::empty(),
            s.bucket_clearing@ == Map::<ChainKey, ()>::empty(),
            s.checkpoint_pruning_states@ == Map::<ChainKey, CheckpointPruningState>::empty(),
    {
        ChainStore {
            attestations: KeyMap::new(),
            checkpoints: KeyMap::new(),
            checkpoint_buckets: KeyMap::new(),
            last_checkpoint: KeyMap::new(),
            checkpointing_queues: KeyMap::new(),
            last_digest: KeyMap::new(),
            attestation_removal_queues: KeyMap::new(),
            checkpoint_clearing: KeyMap::new(),
            bucket_clearing: KeyMap::new(),
            checkpoint_pruning_states: KeyMap::new(),
        }
    }

    /// The bucket pivot of a block number.
    pub fn compute_block_index_for(block_number: u64) -> (r: u64)
        ensures
            r == bucket_index(block_number),
            r <= block_number,
            r % CHECKPOINT_BUCKET_SIZE == 0,
            block_number - r < CHECKPOINT_BUCKET_SIZE,
    {
        block_number - block_number % CHECKPOINT_BUCKET_SIZE
    }

    /// The removal queue of `chain_key`, copied out.
    pub fn removal_queue_of(&self, chain_key: ChainKey) -> (q: Vec<Digest>)
        requires
            self.wf(),
        ensures
            q@ == self.removal_queue(chain_key),
    {
        match self.attestation_removal_queues.get(&chain_key) {
            Some(q) => copy_digests(q),
            None => Vec::new(),
        }
    }

    /// The checkpointing queue of `chain_key`, copied out.
    pub fn checkpointing_queue_of(&self, chain_key: ChainKey) -> (q: Vec<Digest>)
        requires
            self.wf(),
        ensures
            q@ == self.checkpointing_queue(chain_key),
    {
        match self.checkpointing_queues.get(&chain_key) {
            Some(q) => copy_digests(q),
            None => Vec::new(),
        }
    }

    /// Stores `cp` as a checkpoint of `chain_key`, indexes it in its bucket, makes it
    /// the last checkpoint and emits `CheckpointReached`.
    pub fn record_checkpoint(
        &mut self,
        chain_key: ChainKey,
        cp: AttestationCheckpoint,
        events: &mut Vec<Event>,
    )
        requires
            old(self).wf(),
        ensures
            final(self).wf(),
            final(self).checkpoints@ == old(self).checkpoints@.insert(
                (chain_key, cp.block_number),
                cp.digest,
            ),
            final(self).checkpoint_buckets@ == old(self).checkpoint_buckets@.insert(
                (chain_key, bucket_index(cp.block_number), cp.block_number),
                (),
            ),
            final(self).last_checkpoint@ == old(self).last_checkpoint@.insert(chain_key, cp),
            final(self).attestations == old(self).attestations,
            final(self).checkpointing_queues == old(self).checkpointing_queues,
            final(self).last_digest == old(self).last_digest,
            final(self).attestation_removal_queues == old(self).attestation_removal_queues,
            final(self).checkpoint_clearing == old(self).checkpoint_clearing,
            final(self).bucket_clearing == old(self).bucket_clearing,
            final(self).checkpoint_pruning_states == old(self).checkpoint_pruning_states,
            final(events)@ == old(events)@.push(Event::CheckpointReached(chain_key, cp)),
    {
        self.checkpoints.insert((chain_key, cp.block_number), cp.digest);
        let pivot = Self::compute_block_index_for(cp.block_number);
        self.checkpoint_buckets.insert((chain_key, pivot, cp.block_number), ());
        self.last_checkpoint.insert(chain_key, cp);
        events.push(Event::CheckpointReached(chain_key, cp));
    }

    /// Drops the oldest entries of `removal_queue` (and their attestations) until at
    /// most `retention` remain, and stores what remains as the removal queue.
    pub fn remove_attestations(
        &mut self,
        chain_key: ChainKey,
        removal_queue: Vec<Digest>,
        retention: u32,
    )
        requires
            old(self).wf(),
        ensures
            final(self).wf(),
            final(self).attestations@ == without_attestations(
                old(self).attestations@,
                chain_key,
                removal_queue@.take(excess(removal_queue@.len(), retention)),
            ),
            final(self).attestation_removal_queues@ == old(
                self,
            ).attestation_removal_queues@.insert(
                chain_key,
                final(self).attestation_removal_queues@[chain_key],
            ),
            final(self).removal_queue(chain_key) == removal_queue@.skip(
                excess(removal_queue@.len(), retention),
            ),
            final(self).checkpoints == old(self).checkpoints,
            final(self).checkpoint_buckets == old(self).checkpoint_buckets,
            final(self).last_checkpoint == old(self).last_checkpoint,
            final(self).checkpointing_queues == old(self).checkpointing_queues,
            final(self).last_digest == old(self).last_digest,
            final(self).checkpoint_clearing == old(self).checkpoint_clearing,
            final(self).bucket_clearing == old(self).bucket_clearing,
            final(self).checkpoint_pruning_states == old(self).checkpoint_pruning_states,
    {
        let n = removal_queue.len();
        let drop: usize = if n > retention as usize {
            n - retention as usize
        } else {
            0
        };
        let ghost rq = removal_queue@;
        let ghost m0 = self.attestations@;
        let mut i: usize = 0;
        while i < drop
            invariant
                self.wf(),
                self.same_except_attestations(*old(self)),
                rq == removal_queue@,
                n == rq.len(),
                drop <= n,
                i <= drop,
                self.attestations@ == without_attestations(m0, chain_key, rq.take(i as int)),
            decreases drop - i,
        {
            let d = removal_queue[i];
            let _ = self.attestations.remove(&(chain_key, d));
            proof {
                let t1 = rq.take(i + 1);
                let t0 = rq.take(i as int);
                assert(t1 =~= t0.push(d));
                assert forall|x: Digest| #[trigger] t1.contains(x) <==> (t0.contains(x) || x == d) by {
                    if t1.contains(x) {
                        let j = choose|j: int| 0 <= j < t1.len() && #[trigger] t1[j] == x;
                        if j < i {
                            assert(t0[j] == x);
                        }
                    }
                    if t0.contains(x) {
                        let j = choose|j: int| 0 <= j < t0.len() && #[trigger] t0[j] == x;
                        assert(t1[j] == x);
                    }
                    if x == d {
                        assert(t1[i as int] == x);
                    }
                }
                assert(self.attestations@ =~= without_attestations(m0, chain_key, t1));
            }
            i = i + 1;
        }
        let mut kept: Vec<Digest> = Vec::new();
        let mut j: usize = drop;
        while j < n
            invariant
                rq == removal_queue@,
                n == rq.len(),
                drop <= j <= n,
                kept@ == rq.subrange(drop as int, j as int),
            decreases n - j,
        {
            kept.push(removal_queue[j]);
            proof {
                assert(rq.subrange(drop as int, j + 1) =~= rq.subrange(drop as int, j as int).push(
                    rq[j as int],
                ));
            }
            j = j + 1;
        }
        proof {
            assert(rq.subrange(drop as int, n as int) =~= rq.skip(drop as int));
        }
        self.attestation_removal_queues.insert(chain_key, kept);
    }
}

impl ChainStore {
    /// Every field is that of `other`.
    pub open spec fn unchanged_from(&self, other: Self) -> bool {
        &&& self.attestations == other.attestations
        &&& self.same_except_attestations(other)
    }

    /// Walks the checkpointing queue `queue` of `chain_key` towards block `target`
    /// and returns how many entries the checkpoint condenses and the checkpoint.
    pub fn scan_checkpointing_queue(&self, chain_key: ChainKey, queue: &Vec<Digest>, target: u64) -> (r:
        Result<(usize, AttestationCheckpoint), Error>)
        requires
            self.wf(),
        ensures
            match r {
                Ok((c, cp)) => c <= queue@.len() && checkpoint_scan(
                    self.attestations@,
                    chain_key,
                    queue@,
                    target as int,
                    0,
                ) == Ok::<(int, AttestationCheckpoint), Error>((c as int, cp)),
                Err(e) => checkpoint_scan(self.attestations@, chain_key, queue@, target as int, 0)
                    == Err::<(int, AttestationCheckpoint), Error>(e),
            },
    {
        let n = queue.len();
        let mut i: usize = 0;
        while i < n
            invariant
                self.wf(),
                n == queue@.len(),
                i <= n,
                checkpoint_scan(self.attestations@, chain_key, queue@, target as int, 0)
                    == checkpoint_scan(self.attestations@, chain_key, queue@, target as int, i as int),
            decreases n - i,
        {
            let d = queue[i];
            let a = match self.attestations.get(&(chain_key, d)) {
                Some(a) => a,
                None => {
                    return Err(Error::AttestationNotFound);
                },
            };
            if a.header_number < target {
                i = i + 1;
            } else if a.header_number == target {
                return Ok((i + 1, AttestationCheckpoint { block_number: a.header_number, digest: a.digest }));
            } else {
                let start = a.continuity_proof.start_block_number(a.header_number);
                match a.continuity_proof.digest_for_block(start, target) {
                    Some(digest) => {
                        return Ok((i, AttestationCheckpoint { block_number: target, digest }));
                    },
                    None => {
                        return Err(Error::CheckpointTargetNotFound);
                    },
                }
            }
        }
        Err(Error::CheckpointingQueueDrained)
    }

    /// When enough blocks have been attested since the last checkpoint, makes a new
    /// checkpoint that condenses the oldest attestations of the checkpointing queue.
    ///
    /// The checkpoint is placed at the first multiple of the checkpoint width
    /// (`attestation_interval * checkpoint_interval`) after the last checkpoint, once
    /// the attested block is at least twice that width past it. The condensed
    /// entries leave `queue` and join the removal queue, which then keeps at most
    /// `retention` entries. On error nothing changes.
    pub fn try_make_checkpoint(
        &mut self,
        queue: &mut Vec<Digest>,
        chain_key: ChainKey,
        attestation_header: u64,
        attestation_interval: u64,
        checkpoint_interval: u32,
        retention: u32,
        events: &mut Vec<Event>,
    ) -> (r: Result<(), Error>)
        requires
            old(self).wf(),
        ensures
            final(self).wf(),
            checkpoint_effect(
                *old(self),
                *final(self),
                old(queue)@,
                final(queue)@,
                old(events)@,
                final(events)@,
                chain_key,
                attestation_header,
                attestation_interval,
                checkpoint_interval,
                retention,
                r,
            ),
    {
        let last = match self.last_checkpoint.get(&chain_key) {
            Some(c) => *c,
            None => {
                return Err(Error::LastCheckpointEmpty);
            },
        };
        let width: u64 = match attestation_interval.checked_mul(checkpoint_interval as u64) {
            Some(w) => w,
            None => u64::MAX,
        };
        if width == 0 {
            return Err(Error::CheckpointWidthIsZero);
        }
        let span = attestation_header.saturating_sub(last.block_number);
        if (span as u128) < (width as u128) * 2 {
            return Ok(());
        }
        let next = last.block_number.saturating_add(width);
        let target = next - next % width;
        match self.scan_checkpointing_queue(chain_key, queue, target) {
            Err(e) => Err(e),
            Ok((c, cp)) => {
                self.record_checkpoint(chain_key, cp, events);
                let mut rq = self.removal_queue_of(chain_key);
                let ghost rq0 = rq@;
                let mut j: usize = 0;
                while j < c
                    invariant
                        c <= queue@.len(),
                        j <= c,
                        rq@ == rq0 + queue@.take(j as int),
                    decreases c - j,
                {
                    rq.push(queue[j]);
                    proof {
                        assert(queue@.take(j + 1) =~= queue@.take(j as int).push(queue@[j as int]));
                    }
                    j = j + 1;
                }
                let rest = digests_subrange(queue, c, queue.len());
                proof {
                    assert(rest@ =~= queue@.skip(c as int));
                }
                *queue = rest;
                self.remove_attestations(chain_key, rq, retention);
                Ok(())
            },
        }
    }
}

/// The digest that attestation `a` (whose own digest is `a_digest`) gives for block `b`.
pub fn attestation_block_digest(a: &SignedAttestation, a_digest: Digest, b: u64) -> (r: Option<Digest>)
    ensures
        r == att_block_digest(*a, a_digest, b as int),
{
    if b == a.header_number {
        Some(a_digest)
    } else {
        let start = a.continuity_proof.start_block_number(a.header_number);
        a.continuity_proof.digest_for_block(start, b)
    }
}

impl ChainStore {
    /// The digest of block `b` known from the stored attestations of `queue`.
    pub fn queued_digest_for_block(&self, chain_key: ChainKey, queue: &Vec<Digest>, b: u64) -> (r:
        Option<Digest>)
        requires
            self.wf(),
        ensures
            r == queued_block_digest(self.attestations@, chain_key, queue@, b as int),
    {
        let n = queue.len();
        let mut i: usize = 0;
        while i < n
            invariant
                self.wf(),
                n == queue@.len(),
                i <= n,
                queued_block_digest(self.attestations@, chain_key, queue@.take(i as int), b as int)
                    is None,
            decreases n - i,
        {
            proof {
                assert(queue@.take(i + 1).drop_last() =~= queue@.take(i as int));
            }
            match self.attestations.get(&(chain_key, queue[i])) {
                Some(qa) => {
                    let r = attestation_block_digest(qa, qa.digest, b);
                    if r.is_some() {
                        proof {
                            assert(queue@.take(n as int) =~= queue@);
                            lemma_queued_prefix(self.attestations@, chain_key, queue@, b as int, i + 1);
                        }
                        return r;
                    }
                },
                None => {},
            }
            i = i + 1;
        }
        proof {
            assert(queue@.take(n as int) =~= queue@);
        }
        None
    }

    /// The checkpoints to create at every boundary after `last` up to `head`.
    fn plan_catchup(
        &self,
        chain_key: ChainKey,
        a: &SignedAttestation,
        a_digest: Digest,
        queue: &Vec<Digest>,
        width: u64,
        last: u64,
    ) -> (r: Result<Vec<AttestationCheckpoint>, Error>)
        requires
            self.wf(),
            width > 0,
            a.header_number < checkpoint_target(u64::MAX, width as int),
        ensures
            match r {
                Ok(cps) => catchup_checkpoints(
                    self.attestations@,
                    chain_key,
                    *a,
                    a_digest,
                    queue@,
                    width as int,
                    a.header_number as int,
                    last,
                ) == Ok::<Seq<AttestationCheckpoint>, Error>(cps@),
                Err(e) => catchup_checkpoints(
                    self.attestations@,
                    chain_key,
                    *a,
                    a_digest,
                    queue@,
                    width as int,
                    a.header_number as int,
                    last,
                ) == Err::<Seq<AttestationCheckpoint>, Error>(e),
            },
    {
        let head = a.header_number;
        let ghost atts = self.attestations@;
        let ghost full = catchup_checkpoints(atts, chain_key, *a, a_digest, queue@, width as int, head as int, last);
        let mut cps: Vec<AttestationCheckpoint> = Vec::new();
        let mut cur = last;
        loop
            invariant
                self.wf(),
                atts == self.attestations@,
                width > 0,
                head == a.header_number,
                head < checkpoint_target(u64::MAX, width as int),
                full == catchup_checkpoints(atts, chain_key, *a, a_digest, queue@, width as int, head as int, last),
                full == match catchup_checkpoints(atts, chain_key, *a, a_digest, queue@, width as int, head as int, cur) {
                    Ok(rest) => Ok::<Seq<AttestationCheckpoint>, Error>(cps@ + rest),
                    Err(e) => Err(e),
                },
            decreases head - cur,
        {
            let next = cur.saturating_add(width);
            let target = next - next % width;
            if target > head {
                proof {
                    assert(cps@ + Seq::<AttestationCheckpoint>::empty() =~= cps@);
                }
                return Ok(cps);
            }
            proof {
                if cur as int + width as int > u64::MAX {
                    assert(target as int == checkpoint_target(u64::MAX, width as int));
                }
                assert(target > cur);
            }
            match self.queued_lookup(chain_key, a, a_digest, queue, target) {
                None => {
                    return Err(Error::CheckpointCreationError);
                },
                Some(d) => {
                    let cp = AttestationCheckpoint { block_number: target, digest: d };
                    proof {
                        let rest = catchup_checkpoints(atts, chain_key, *a, a_digest, queue@, width as int, head as int, target);
                        if rest is Ok {
                            assert(cps@.push(cp) + rest->Ok_0 =~= cps@ + (seq![cp] + rest->Ok_0));
                        }
                    }
                    cps.push(cp);
                    cur = target;
                },
            }
        }
    }

    /// The digest of block `b` when catching up from attestation `a`.
    fn queued_lookup(
        &self,
        chain_key: ChainKey,
        a: &SignedAttestation,
        a_digest: Digest,
        queue: &Vec<Digest>,
        b: u64,
    ) -> (r: Option<Digest>)
        requires
            self.wf(),
        ensures
            r == boundary_digest(self.attestations@, chain_key, *a, a_digest, queue@, b as int),
    {
        match attestation_block_digest(a, a_digest, b) {
            Some(d) => Some(d),
            None => self.queued_digest_for_block(chain_key, queue, b),
        }
    }
}

impl ChainStore {
    /// When an attestation catches up (its continuity proof spans two checkpoint
    /// widths or more), creates the checkpoints at every boundary up to the attested
    /// block directly from the proof and from the queued attestations, and moves the
    /// checkpointing queue and the attestation to the removal queue. Returns whether
    /// any checkpoint was created; otherwise, and on error, nothing changes.
    pub fn create_checkpoints_from_continuity_proof(
        &mut self,
        chain_key: ChainKey,
        attestation_digest: Digest,
        attestation_interval: u64,
        checkpoint_interval: u32,
        retention: u32,
        events: &mut Vec<Event>,
    ) -> (r: Result<bool, Error>)
        requires
            old(self).wf(),
            old(self).attestations@.contains_key((chain_key, attestation_digest)),
            catchup_terminates(
                old(self).attestations@[(chain_key, attestation_digest)],
                attestation_interval,
                checkpoint_interval,
            ),
        ensures
            final(self).wf(),
            catchup_effect(
                *old(self),
                *final(self),
                old(events)@,
                final(events)@,
                chain_key,
                old(self).attestations@[(chain_key, attestation_digest)],
                attestation_digest,
                attestation_interval,
                checkpoint_interval,
                retention,
                r,
            ),
    {
        let a = match self.attestations.get(&(chain_key, attestation_digest)) {
            Some(a) => a,
            None => {
                return Ok(false);
            },
        };
        if a.continuity_proof.is_empty() {
            return Ok(false);
        }
        let last = match self.last_checkpoint.get(&chain_key) {
            Some(c) => *c,
            None => {
                return Err(Error::LastCheckpointEmpty);
            },
        };
        let width: u64 = match attestation_interval.checked_mul(checkpoint_interval as u64) {
            Some(w) => w,
            None => u64::MAX,
        };
        if width == 0 {
            return Err(Error::CheckpointWidthIsZero);
        }
        let proof_len = a.continuity_proof.len();
        if (proof_len as u128) < 2 * (width as u128) {
            return Ok(false);
        }
        let queue = self.checkpointing_queue_of(chain_key);
        let cps = match self.plan_catchup(
            chain_key,
            a,
            attestation_digest,
            &queue,
            width,
            last.block_number,
        ) {
            Ok(cps) => cps,
            Err(e) => {
                return Err(e);
            },
        };
        let n = cps.len();
        if n == 0 {
            return Ok(false);
        }
        let mut k: usize = 0;
        while k < n
            invariant
                self.wf(),
                n == cps@.len(),
                k <= n,
                self.attestations == old(self).attestations,
                self.checkpointing_queues == old(self).checkpointing_queues,
                self.last_digest == old(self).last_digest,
                self.attestation_removal_queues == old(self).attestation_removal_queues,
                self.checkpoint_clearing == old(self).checkpoint_clearing,
                self.bucket_clearing == old(self).bucket_clearing,
                self.checkpoint_pruning_states == old(self).checkpoint_pruning_states,
                self.checkpoints@ == with_checkpoints(old(self).checkpoints@, chain_key, cps@.take(k as int)),
                self.checkpoint_buckets@ == with_bucket_entries(
                    old(self).checkpoint_buckets@,
                    chain_key,
                    cps@.take(k as int),
                ),
                k == 0 ==> self.last_checkpoint == old(self).last_checkpoint,
                k > 0 ==> self.last_checkpoint@ == old(self).last_checkpoint@.insert(
                    chain_key,
                    cps@[k - 1],
                ),
                events@ == old(events)@ + checkpoint_events(chain_key, cps@.take(k as int)),
            decreases n - k,
        {
            let cp = cps[k];
            self.record_checkpoint(chain_key, cp, events);
            proof {
                let t1 = cps@.take(k + 1);
                assert(t1.drop_last() =~= cps@.take(k as int));
                assert(t1.last() == cp);
                assert(checkpoint_events(chain_key, t1) =~= checkpoint_events(
                    chain_key,
                    cps@.take(k as int),
                ).push(Event::CheckpointReached(chain_key, cp)));
                if k > 0 {
                    assert(old(self).last_checkpoint@.insert(chain_key, cps@[k - 1]).insert(chain_key, cp)
                        =~= old(self).last_checkpoint@.insert(chain_key, cp));
                }
            }
            k = k + 1;
        }
        proof {
            assert(cps@.take(n as int) =~= cps@);
        }
        let mut rq = self.removal_queue_of(chain_key);
        let ghost rq0 = rq@;
        let mut j: usize = 0;
        while j < queue.len()
            invariant
                j <= queue@.len(),
                rq@ == rq0 + queue@.take(j as int),
            decreases queue@.len() - j,
        {
            rq.push(queue[j]);
            proof {
                assert(queue@.take(j + 1) =~= queue@.take(j as int).push(queue@[j as int]));
            }
            j = j + 1;
        }
        rq.push(attestation_digest);
        proof {
            assert(queue@.take(queue@.len() as int) =~= queue@);
            assert(rq@ =~= old(self).removal_queue(chain_key) + old(self).checkpointing_queue(chain_key)
                + seq![attestation_digest]);
        }
        self.remove_attestations(chain_key, rq, retention);
        let _ = self.checkpointing_queues.remove(&chain_key);
        Ok(true)
    }
}

impl ChainStore {
    /// Stores `cp` as a checkpoint of `chain_key`, indexes it in its bucket and
    /// emits `CheckpointReached`.
    pub fn store_checkpoint(&mut self, chain_key: ChainKey, cp: AttestationCheckpoint, events: &mut Vec<Event>)
        requires
            old(self).wf(),
        ensures
            final(self).wf(),
            final(self).checkpoints@ == old(self).checkpoints@.insert(
                (chain_key, cp.block_number),
                cp.digest,
            ),
            final(self).checkpoint_buckets@ == old(self).checkpoint_buckets@.insert(
                (chain_key, bucket_index(cp.block_number), cp.block_number),
                (),
            ),
            final(self).attestations == old(self).attestations,
            final(self).last_checkpoint == old(self).last_checkpoint,
            final(self).checkpointing_queues == old(self).checkpointing_queues,
            final(self).last_digest == old(self).last_digest,
            final(self).attestation_removal_queues == old(self).attestation_removal_queues,
            final(self).checkpoint_clearing == old(self).checkpoint_clearing,
            final(self).bucket_clearing == old(self).bucket_clearing,
            final(self).checkpoint_pruning_states == old(self).checkpoint_pruning_states,
            final(events)@ == old(events)@.push(Event::CheckpointReached(chain_key, cp)),
    {
        self.checkpoints.insert((chain_key, cp.block_number), cp.digest);
        let pivot = Self::compute_block_index_for(cp.block_number);
        self.checkpoint_buckets.insert((chain_key, pivot, cp.block_number), ());
        events.push(Event::CheckpointReached(chain_key, cp));
    }

    /// What importing `checkpoints` for `chain_key` does: `pre` becomes `post`, the
    /// events `e0` become `e1`, and `r` is returned.
    pub open spec fn import_effect(pre: ChainStore, post: ChainStore, e0: Seq<Event>, e1: Seq<Event>, chain_key: ChainKey, chain_supported: bool, checkpoints: Seq<AttestationCheckpoint>, r: Result<(), Error>) -> bool {
        &&& (!chain_supported ==> r == Err::<(), Error>(Error::ChainNotSupported)
                && post.unchanged_from(pre) && e1 == e0)
        &&& (chain_supported ==> match imported_checkpoints(
                pre.checkpoints@,
                chain_key,
                pre.last_digest@.contains_key(chain_key),
                pre.last_checkpoint@.get(chain_key),
                checkpoints,
            ) {
                Err(e) => r == Err::<(), Error>(e) && post.unchanged_from(pre)
                    && e1 == e0,
                Ok(imp) => {
                    &&& r is Ok
                    &&& post.checkpoints@ == with_checkpoints(
                        pre.checkpoints@,
                        chain_key,
                        imp,
                    )
                    &&& post.checkpoint_buckets@ == with_bucket_entries(
                        pre.checkpoint_buckets@,
                        chain_key,
                        imp,
                    )
                    &&& post.last_checkpoint@ == if !pre.last_checkpoint@.contains_key(
                        chain_key,
                    ) && imp.len() > 0 {
                        pre.last_checkpoint@.insert(
                            chain_key,
                            highest_checkpoint(imp)->0,
                        )
                    } else {
                        pre.last_checkpoint@
                    }
                    &&& post.attestations == pre.attestations
                    &&& post.checkpointing_queues == pre.checkpointing_queues
                    &&& post.last_digest == pre.last_digest
                    &&& post.attestation_removal_queues == pre.attestation_removal_queues
                    &&& post.checkpoint_clearing == pre.checkpoint_clearing
                    &&& post.bucket_clearing == pre.bucket_clearing
                    &&& post.checkpoint_pruning_states == pre.checkpoint_pruning_states
                    &&& e1 == e0 + checkpoint_events(chain_key, imp)
                },
            })
    }

    /// Imports checkpoints older than the chain's last checkpoint (or, for a chain
    /// with neither checkpoints nor attestations, any checkpoint, the highest
    /// becoming the last one); blocks that already have a checkpoint are skipped.
    /// On error nothing changes.
    pub fn do_import_checkpoints(
        &mut self,
        chain_key: ChainKey,
        chain_supported: bool,
        checkpoints: &Vec<AttestationCheckpoint>,
        events: &mut Vec<Event>,
    ) -> (r: Result<(), Error>)
        requires
            old(self).wf(),
        ensures
            final(self).wf(),
            Self::import_effect(*old(self), *final(self), old(events)@, final(events)@, chain_key, chain_supported, checkpoints@, r),
    {
        if !chain_supported {
            return Err(Error::ChainNotSupported);
        }
        let has_attestations = self.last_digest.contains_key(&chain_key);
        let maybe_last: Option<AttestationCheckpoint> = match self.last_checkpoint.get(&chain_key) {
            Some(c) => Some(*c),
            None => None,
        };
        let ghost stored = self.checkpoints@;
        let ghost input = checkpoints@;
        let n = checkpoints.len();
        if has_attestations && maybe_last.is_none() {
            let mut i: usize = 0;
            while i < n
                invariant
                    self.wf(),
                    self.checkpoints@ == stored,
                    input == checkpoints@,
                    n == input.len(),
                    i <= n,
                    has_attestations,
                    maybe_last is None,
                    chain_supported,
                    *self == *old(self),
                    events@ == old(events)@,
                    maybe_last == old(self).last_checkpoint@.get(chain_key),
                    has_attestations == old(self).last_digest@.contains_key(chain_key),
                    stored == old(self).checkpoints@,
                    imported_checkpoints(stored, chain_key, has_attestations, maybe_last, input.take(i as int))
                        == Ok::<Seq<AttestationCheckpoint>, Error>(Seq::empty()),
                decreases n - i,
            {
                let cp = checkpoints[i];
                proof {
                    assert(input.take(i + 1).drop_last() =~= input.take(i as int));
                    assert(with_checkpoints(stored, chain_key, Seq::empty()) == stored);
                }
                if !self.checkpoints.contains_key(&(chain_key, cp.block_number)) {
                    proof {
                        lemma_import_error_sticks(stored, chain_key, has_attestations, maybe_last, input, i + 1);
                    }
                    return Err(Error::LastCheckpointNotSet);
                }
                i = i + 1;
            }
            proof {
                assert(input.take(n as int) =~= input);
                assert(checkpoint_events(chain_key, Seq::empty()) =~= Seq::<Event>::empty());
                assert(old(events)@ + Seq::<Event>::empty() =~= old(events)@);
            }
            return Ok(());
        }
        let mut new_last: Option<AttestationCheckpoint> = None;
        let ghost mut imp: Seq<AttestationCheckpoint> = Seq::empty();
        let mut i: usize = 0;
        proof {
            assert(checkpoint_events(chain_key, Seq::empty()) =~= Seq::<Event>::empty());
            assert(old(events)@ + Seq::<Event>::empty() =~= old(events)@);
        }
        while i < n
            invariant
                self.wf(),
                input == checkpoints@,
                n == input.len(),
                i <= n,
                !(has_attestations && maybe_last is None),
                maybe_last == old(self).last_checkpoint@.get(chain_key),
                has_attestations == old(self).last_digest@.contains_key(chain_key),
                stored == old(self).checkpoints@,
                imported_checkpoints(stored, chain_key, has_attestations, maybe_last, input.take(i as int))
                    == Ok::<Seq<AttestationCheckpoint>, Error>(imp),
                self.checkpoints@ == with_checkpoints(stored, chain_key, imp),
                self.checkpoint_buckets@ == with_bucket_entries(
                    old(self).checkpoint_buckets@,
                    chain_key,
                    imp,
                ),
                maybe_last is None ==> new_last == highest_checkpoint(imp),
                self.attestations == old(self).attestations,
                self.last_checkpoint == old(self).last_checkpoint,
                self.checkpointing_queues == old(self).checkpointing_queues,
                self.last_digest == old(self).last_digest,
                self.attestation_removal_queues == old(self).attestation_removal_queues,
                self.checkpoint_clearing == old(self).checkpoint_clearing,
                self.bucket_clearing == old(self).bucket_clearing,
                self.checkpoint_pruning_states == old(self).checkpoint_pruning_states,
                events@ == old(events)@ + checkpoint_events(chain_key, imp),
            decreases n - i,
        {
            let cp = checkpoints[i];
            proof {
                assert(input.take(i + 1).drop_last() =~= input.take(i as int));
                assert(input.take(i + 1).last() == cp);
            }
            if self.checkpoints.contains_key(&(chain_key, cp.block_number)) {
            } else if maybe_last.is_some() && cp.block_number >= maybe_last.unwrap().block_number {
            } else {
                if maybe_last.is_none() {
                    match new_last {
                        None => {
                            new_last = Some(cp);
                        },
                        Some(m) => {
                            if cp.block_number > m.block_number {
                                new_last = Some(cp);
                            }
                        },
                    }
                }
                self.store_checkpoint(chain_key, cp, events);
                proof {
                    let imp1 = imp.push(cp);
                    assert(imp1.drop_last() =~= imp);
                    assert(checkpoint_events(chain_key, imp1) =~= checkpoint_events(chain_key, imp).push(
                        Event::CheckpointReached(chain_key, cp),
                    ));
                    imp = imp1;
                }
            }
            i = i + 1;
        }
        proof {
            assert(input.take(n as int) =~= input);
        }
        if maybe_last.is_none() {
            match new_last {
                Some(c) => {
                    self.last_checkpoint.insert(chain_key, c);
                },
                None => {},
            }
        }
        Ok(())
    }
}

/// Once an import is refused on a prefix of its input, it is refused on the input.
proof fn lemma_import_error_sticks(
    stored: Map<(ChainKey, u64), Digest>,
    chain_key: ChainKey,
    has_attestations: bool,
    last: Option<AttestationCheckpoint>,
    input: Seq<AttestationCheckpoint>,
    k: int,
)
    requires
        0 <= k <= input.len(),
        imported_checkpoints(stored, chain_key, has_attestations, last, input.take(k))
            == Err::<Seq<AttestationCheckpoint>, Error>(Error::LastCheckpointNotSet),
    ensures
        imported_checkpoints(stored, chain_key, has_attestations, last, input)
            == Err::<Seq<AttestationCheckpoint>, Error>(Error::LastCheckpointNotSet),
    decreases input.len() - k,
{
    if k < input.len() {
        assert(input.take(k + 1).drop_last() =~= input.take(k));
        lemma_import_error_sticks(stored, chain_key, has_attestations, last, input, k + 1);
    } else {
        assert(input.take(k) =~= input);
    }
}

impl ChainStore {
    /// The heights of the checkpoints of `chain_key` above block `above`.
    pub fn checkpoint_heights_above(&self, chain_key: ChainKey, above: u64) -> (r: Vec<u64>)
        requires
            self.wf(),
        ensures
            r@.no_duplicates(),
            r@.to_set() == suffix_heights(self.checkpoints@, chain_key, above),
            suffix_heights(self.checkpoints@, chain_key, above).finite(),
            r@.len() == suffix_heights(self.checkpoints@, chain_key, above).len(),
    {
        let all = self.checkpoints.keys_of_chain(chain_key);
        let n = all.len();
        let mut r: Vec<u64> = Vec::new();
        let ghost mut ix: Seq<int> = Seq::empty();
        let mut i: usize = 0;
        while i < n
            invariant
                n == all@.len(),
                i <= n,
                all@.no_duplicates(),
                ix.len() == r@.len(),
                forall|j: int| 0 <= j < ix.len() ==> 0 <= #[trigger] ix[j] < i,
                forall|a: int, b: int| 0 <= a < b < ix.len() ==> #[trigger] ix[a] < #[trigger] ix[b],
                forall|j: int| 0 <= j < ix.len() ==> #[trigger] r@[j] == all@[ix[j]].1 && r@[j] > above,
                forall|j: int|
                    0 <= j < i && #[trigger] all@[j].1 > above ==> r@.contains(all@[j].1),
            decreases n - i,
        {
            let k = all[i];
            if k.1 > above {
                let ghost r_old = r@;
                proof {
                    ix = ix.push(i as int);
                }
                r.push(k.1);
                proof {
                    assert(r@ == r_old.push(k.1));
                    assert forall|j: int| 0 <= j < i + 1 && #[trigger] all@[j].1 > above implies r@.contains(
                        all@[j].1,
                    ) by {
                        if j < i {
                            assert(r_old.contains(all@[j].1));
                            let t = choose|t: int| 0 <= t < r_old.len() && #[trigger] r_old[t] == all@[j].1;
                            assert(r@[t] == all@[j].1);
                        } else {
                            assert(r@[r@.len() - 1] == all@[j].1);
                        }
                    }
                }
            }
            i = i + 1;
        }
        proof {
            let hs = suffix_heights(self.checkpoints@, chain_key, above);
            assert forall|a: int, b: int| 0 <= a < r@.len() && 0 <= b < r@.len() && a != b implies r@[a]
                != r@[b] by {
                assert(all@[ix[a]] != all@[ix[b]]);
                assert(all@[ix[a]].0 == chain_key) by {
                    assert(all@.to_set().contains(all@[ix[a]]));
                }
                assert(all@[ix[b]].0 == chain_key) by {
                    assert(all@.to_set().contains(all@[ix[b]]));
                }
            }
            assert forall|h: u64| #[trigger] r@.to_set().contains(h) <==> hs.contains(h) by {
                if r@.to_set().contains(h) {
                    let j = choose|j: int| 0 <= j < r@.len() && r@[j] == h;
                    assert(all@.to_set().contains(all@[ix[j]]));
                }
                if hs.contains(h) {
                    assert(self.checkpoints.chain_keys(chain_key).contains((chain_key, h)));
                    assert(all@.to_set().contains((chain_key, h)));
                    let j = choose|j: int| 0 <= j < all@.len() && all@[j] == (chain_key, h);
                    assert(all@[j].1 > above);
                }
            }
            assert(r@.to_set() =~= hs);
            r@.unique_seq_to_set();
        }
        r
    }
}

/// The checkpoints of a forward patch by block number, a later entry for a block
/// replacing an earlier one.
pub fn merge_patch(input: &Vec<AttestationCheckpoint>) -> (m: KeyMap<u64, Digest>)
    ensures
        m.wf(),
        m@ == patch_entries(input@),
{
    let mut m: KeyMap<u64, Digest> = KeyMap::new();
    let mut i: usize = 0;
    proof {
        assert(input@.take(0) =~= Seq::<AttestationCheckpoint>::empty());
    }
    while i < input.len()
        invariant
            m.wf(),
            i <= input@.len(),
            m@ == patch_entries(input@.take(i as int)),
        decreases input@.len() - i,
    {
        let c = input[i];
        m.insert(c.block_number, c.digest);
        proof {
            assert(input@.take(i + 1).drop_last() =~= input@.take(i as int));
        }
        i = i + 1;
    }
    proof {
        assert(input@.take(input@.len() as int) =~= input@);
    }
    m
}

/// The entry of `m` with the highest block number.
pub fn highest_entry(m: &KeyMap<u64, Digest>) -> (r: (u64, Digest))
    requires
        m.wf(),
        m.spec_len() > 0,
    ensures
        m@.contains_key(r.0),
        m@[r.0] == r.1,
        forall|c: u64| #[trigger] m@.contains_key(c) ==> c <= r.0,
{
    let n = m.len();
    let mut best = (*m.key_at(0), *m.value_at(0));
    let ghost mut bi: int = 0;
    let mut i: usize = 1;
    while i < n
        invariant
            m.wf(),
            n == m.spec_len(),
            1 <= i <= n,
            0 <= bi < n,
            best == m.pairs()[bi],
            forall|j: int| 0 <= j < i ==> #[trigger] m.pairs()[j].0 <= best.0,
        decreases n - i,
    {
        let k = *m.key_at(i);
        if k > best.0 {
            best = (k, *m.value_at(i));
            proof {
                bi = i as int;
            }
        }
        i = i + 1;
    }
    proof {
        m.lemma_pair_in_view(bi);
        assert forall|c: u64| #[trigger] m@.contains_key(c) implies c <= best.0 by {
            assert(m.pairs()[m.idx(c)].0 == c);
        }
    }
    best
}

/// The entry of `m` with the lowest block number above `prev`, if any.
pub fn next_entry_above(m: &KeyMap<u64, Digest>, prev: Option<u64>) -> (r: Option<(u64, Digest)>)
    requires
        m.wf(),
    ensures
        match r {
            None => forall|c: u64| #[trigger] m@.contains_key(c) ==> !above_prev(prev, c),
            Some((k, d)) => {
                &&& m@.contains_key(k)
                &&& m@[k] == d
                &&& above_prev(prev, k)
                &&& forall|c: u64| #[trigger] m@.contains_key(c) && above_prev(prev, c) ==> k <= c
            },
        },
{
    let n = m.len();
    let mut best: Option<(u64, Digest)> = None;
    let ghost mut bi: int = 0;
    let mut i: usize = 0;
    while i < n
        invariant
            m.wf(),
            n == m.spec_len(),
            i <= n,
            match best {
                None => forall|j: int| 0 <= j < i ==> !above_prev(prev, #[trigger] m.pairs()[j].0),
                Some(b) => {
                    &&& 0 <= bi < n
                    &&& b == m.pairs()[bi]
                    &&& above_prev(prev, b.0)
                    &&& forall|j: int| 0 <= j < i && above_prev(prev, #[trigger] m.pairs()[j].0) ==> b.0 <= m.pairs()[j].0
                },
            },
        decreases n - i,
    {
        let k = *m.key_at(i);
        let is_above = match prev {
            None => true,
            Some(p) => k > p,
        };
        if is_above {
            match best {
                None => {
                    best = Some((k, *m.value_at(i)));
                    proof {
                        bi = i as int;
                    }
                },
                Some(b) => {
                    if k < b.0 {
                        best = Some((k, *m.value_at(i)));
                        proof {
                            bi = i as int;
                        }
                    }
                },
            }
        }
        i = i + 1;
    }
    proof {
        match best {
            None => {
                assert forall|c: u64| #[trigger] m@.contains_key(c) implies !above_prev(prev, c) by {
                    assert(m.pairs()[m.idx(c)].0 == c);
                }
            },
            Some(b) => {
                m.lemma_pair_in_view(bi);
                assert forall|c: u64| #[trigger] m@.contains_key(c) && above_prev(prev, c) implies b.0 <= c by {
                    assert(m.pairs()[m.idx(c)].0 == c);
                }
            },
        }
    }
    best
}

impl ChainStore {
    /// No checkpoint maintenance (pruning, clearing of checkpoints or buckets) is under
    /// way for `chain_key`.
    pub open spec fn no_maintenance(&self, chain_key: ChainKey) -> bool {
        &&& !self.checkpoint_pruning_states@.contains_key(chain_key)
        &&& !self.checkpoint_clearing@.contains_key(chain_key)
        &&& !self.bucket_clearing@.contains_key(chain_key)
    }

    /// Repairs the checkpoints of `chain_key` with a patch: purges the chain's
    /// attestations and queues, optionally wipes the checkpoints above the patch's
    /// highest block, stores the patch's checkpoints (ascending, one event each), and
    /// makes the patch's tip the last checkpoint unless a higher last checkpoint is
    /// kept (no wipe). On error nothing changes.
    pub fn do_forward_patch_checkpoints(
        &mut self,
        chain_key: ChainKey,
        chain_supported: bool,
        wipe_suffix: bool,
        checkpoints: &Vec<AttestationCheckpoint>,
        events: &mut Vec<Event>,
    ) -> (r: Result<(), Error>)
        requires
            old(self).wf(),
        ensures
            final(self).wf(),
            r is Err ==> final(self).unchanged_from(*old(self)) && final(events)@ == old(events)@,
            !chain_supported ==> r == Err::<(), Error>(Error::ChainNotSupported),
            chain_supported && !old(self).no_maintenance(chain_key) ==> r == Err::<(), Error>(
                Error::CheckpointMaintenanceInProgress,
            ),
            chain_supported && old(self).no_maintenance(chain_key) && checkpoints@.len() == 0 ==> r
                == Err::<(), Error>(Error::EmptyCheckpointPatch),
            chain_supported && old(self).no_maintenance(chain_key) && checkpoints@.len() > 0
                && old(self).attestations.chain_keys(chain_key).len()
                > FORWARD_PATCH_ATTESTATIONS_CLEAR_BATCH * MAX_FORWARD_PATCH_ATTESTATIONS_CLEAR_LOOPS
                ==> r == Err::<(), Error>(Error::TooManyAttestationsForForwardPatchClear),
            chain_supported && old(self).no_maintenance(chain_key) && checkpoints@.len() > 0
                && old(self).attestations.chain_keys(chain_key).len()
                <= FORWARD_PATCH_ATTESTATIONS_CLEAR_BATCH * MAX_FORWARD_PATCH_ATTESTATIONS_CLEAR_LOOPS
                && wipe_suffix && suffix_heights(
                old(self).checkpoints@,
                chain_key,
                patch_tip(checkpoints@),
            ).len() > MAX_CHECKPOINT_SUFFIX_WIPE_TOTAL ==> r == Err::<(), Error>(
                Error::CheckpointSuffixWipeTooLarge,
            ),
            chain_supported && old(self).no_maintenance(chain_key) && checkpoints@.len() > 0
                && old(self).attestations.chain_keys(chain_key).len()
                <= FORWARD_PATCH_ATTESTATIONS_CLEAR_BATCH * MAX_FORWARD_PATCH_ATTESTATIONS_CLEAR_LOOPS
                && (wipe_suffix ==> suffix_heights(old(self).checkpoints@, chain_key, patch_tip(checkpoints@)).len()
                <= MAX_CHECKPOINT_SUFFIX_WIPE_TOTAL) ==> r is Ok,
            r is Ok ==> {
                let tip = patch_tip(checkpoints@);
                let merged = patch_entries(checkpoints@);
                let wiped = if wipe_suffix {
                    suffix_heights(old(self).checkpoints@, chain_key, tip)
                } else {
                    Set::empty()
                };
                let new_last = match old(self).last_checkpoint@.get(chain_key) {
                    Some(lc) => if !wipe_suffix && lc.block_number > tip {
                        lc
                    } else {
                        AttestationCheckpoint { block_number: tip, digest: merged[tip] }
                    },
                    None => AttestationCheckpoint { block_number: tip, digest: merged[tip] },
                };
                &&& chain_supported
                &&& old(self).no_maintenance(chain_key)
                &&& checkpoints@.len() > 0
                &&& old(self).attestations.chain_keys(chain_key).len()
                    <= FORWARD_PATCH_ATTESTATIONS_CLEAR_BATCH * MAX_FORWARD_PATCH_ATTESTATIONS_CLEAR_LOOPS
                &&& wipe_suffix ==> wiped.len() <= MAX_CHECKPOINT_SUFFIX_WIPE_TOTAL
                &&& final(self).attestations@ == old(self).attestations@.remove_keys(
                    old(self).attestations.chain_keys(chain_key),
                )
                &&& final(self).checkpointing_queues@ == old(self).checkpointing_queues@.remove(
                    chain_key,
                )
                &&& final(self).attestation_removal_queues@ == old(
                    self,
                ).attestation_removal_queues@.remove(chain_key)
                &&& final(self).last_digest@ == old(self).last_digest@.remove(chain_key)
                &&& final(self).checkpoints@ == old(self).checkpoints@.remove_keys(
                    height_keys(chain_key, wiped),
                ).union_prefer_right(lift_checkpoints(chain_key, merged))
                &&& final(self).checkpoint_buckets@ == old(self).checkpoint_buckets@.remove_keys(
                    height_bucket_keys(chain_key, wiped),
                ).union_prefer_right(lift_buckets(chain_key, merged))
                &&& final(self).last_checkpoint@ == old(self).last_checkpoint@.insert(
                    chain_key,
                    new_last,
                )
                &&& final(self).checkpoint_clearing == old(self).checkpoint_clearing
                &&& final(self).bucket_clearing == old(self).bucket_clearing
                &&& final(self).checkpoint_pruning_states == old(self).checkpoint_pruning_states
                &&& exists|cps: Seq<AttestationCheckpoint>|
                    ascending_listing(cps, merged) && #[trigger] checkpoint_events(chain_key, cps)
                        + seq![
                        Event::ForwardCheckpointPatchApplied {
                            chain_key,
                            wiped_suffix: wipe_suffix,
                            tip_block_number: new_last.block_number,
                        },
                    ] == final(events)@.skip(old(events)@.len() as int)
                &&& final(events)@.take(old(events)@.len() as int) == old(events)@
            },
    {
        if !chain_supported {
            return Err(Error::ChainNotSupported);
        }
        if self.checkpoint_pruning_states.contains_key(&chain_key) || self.checkpoint_clearing.contains_key(
            &chain_key,
        ) || self.bucket_clearing.contains_key(&chain_key) {
            return Err(Error::CheckpointMaintenanceInProgress);
        }
        if checkpoints.len() == 0 {
            return Err(Error::EmptyCheckpointPatch);
        }
        let att_keys = self.attestations.keys_of_chain(chain_key);
        if att_keys.len() as u64 > FORWARD_PATCH_ATTESTATIONS_CLEAR_BATCH
            * MAX_FORWARD_PATCH_ATTESTATIONS_CLEAR_LOOPS {
            return Err(Error::TooManyAttestationsForForwardPatchClear);
        }
        let merged = merge_patch(checkpoints);
        let ghost mm = merged@;
        proof {
            let c = checkpoints@.last();
            assert(checkpoints@.drop_last().len() < checkpoints@.len());
            assert(mm.contains_key(c.block_number));
            assert(mm.dom().finite()) by {
                merged.lemma_len_is_dom_len();
            }
            merged.lemma_len_is_dom_len();
        }
        let (tip, tip_digest) = highest_entry(&merged);
        proof {
            assert(patch_tip(checkpoints@) == tip) by {
                let t = patch_tip(checkpoints@);
                assert(mm.contains_key(tip) && forall|c: u64| #[trigger] mm.contains_key(c) ==> c <= tip);
                assert(mm.contains_key(t));
            }
        }
        let heights: Vec<u64> = if wipe_suffix {
            self.checkpoint_heights_above(chain_key, tip)
        } else {
            Vec::new()
        };
        if wipe_suffix && heights.len() > MAX_CHECKPOINT_SUFFIX_WIPE_TOTAL {
            return Err(Error::CheckpointSuffixWipeTooLarge);
        }
        let ghost wiped: Set<u64> = if wipe_suffix {
            suffix_heights(self.checkpoints@, chain_key, tip)
        } else {
            Set::empty()
        };
        proof {
            assert(heights@.to_set() =~= wiped);
        }
        let ghost c_old = self.checkpoints@;
        let ghost b_old = self.checkpoint_buckets@;
        let _ = self.checkpointing_queues.remove(&chain_key);
        let _ = self.attestation_removal_queues.remove(&chain_key);
        let _ = self.last_digest.remove(&chain_key);
        self.attestations.remove_chain(chain_key);
        let mut i: usize = 0;
        proof {
            assert(c_old.remove_keys(height_keys(chain_key, heights@.take(0).to_set())) =~= c_old);
            assert(b_old.remove_keys(height_bucket_keys(chain_key, heights@.take(0).to_set())) =~= b_old);
        }
        while i < heights.len()
            invariant
                self.wf(),
                i <= heights@.len(),
                self.checkpoints@ == c_old.remove_keys(height_keys(chain_key, heights@.take(i as int).to_set())),
                self.checkpoint_buckets@ == b_old.remove_keys(
                    height_bucket_keys(chain_key, heights@.take(i as int).to_set()),
                ),
                self.attestations@ == old(self).attestations@.remove_keys(old(self).attestations.chain_keys(chain_key)),
                self.checkpointing_queues@ == old(self).checkpointing_queues@.remove(chain_key),
                self.attestation_removal_queues@ == old(self).attestation_removal_queues@.remove(chain_key),
                self.last_digest@ == old(self).last_digest@.remove(chain_key),
                self.last_checkpoint == old(self).last_checkpoint,
                self.checkpoint_clearing == old(self).checkpoint_clearing,
                self.bucket_clearing == old(self).bucket_clearing,
                self.checkpoint_pruning_states == old(self).checkpoint_pruning_states,
                events@ == old(events)@,
            decreases heights@.len() - i,
        {
            let h = heights[i];
            let _ = self.checkpoints.remove(&(chain_key, h));
            let pivot = Self::compute_block_index_for(h);
            let _ = self.checkpoint_buckets.remove(&(chain_key, pivot, h));
            proof {
                assert(heights@.take(i + 1) =~= heights@.take(i as int).push(h));
                heights@.take(i as int).lemma_push_to_set_commute(h);
                assert(self.checkpoints@ =~= c_old.remove_keys(
                    height_keys(chain_key, heights@.take(i + 1).to_set()),
                ));
                assert(self.checkpoint_buckets@ =~= b_old.remove_keys(
                    height_bucket_keys(chain_key, heights@.take(i + 1).to_set()),
                ));
            }
            i = i + 1;
        }
        proof {
            assert(heights@.take(heights@.len() as int) =~= heights@);
        }
        let ghost c1 = self.checkpoints@;
        let ghost b1 = self.checkpoint_buckets@;
        let ghost e0 = events@;
        let ghost mut listing: Seq<AttestationCheckpoint> = Seq::empty();
        let mut prev: Option<u64> = None;
        proof {
            assert(listed_part(mm, None) =~= Map::<u64, Digest>::empty());
            assert(c1.union_prefer_right(lift_checkpoints(chain_key, Map::<u64, Digest>::empty())) =~= c1);
            assert(b1.union_prefer_right(lift_buckets(chain_key, Map::<u64, Digest>::empty())) =~= b1);
            assert(checkpoint_events(chain_key, listing) =~= Seq::<Event>::empty());
            assert(e0 + Seq::<Event>::empty() =~= e0);
        }
        loop
            invariant
                self.wf(),
                merged.wf(),
                merged@ == mm,
                self.checkpoints@ == c1.union_prefer_right(lift_checkpoints(chain_key, listed_part(mm, prev))),
                self.checkpoint_buckets@ == b1.union_prefer_right(lift_buckets(chain_key, listed_part(mm, prev))),
                self.attestations@ == old(self).attestations@.remove_keys(old(self).attestations.chain_keys(chain_key)),
                self.checkpointing_queues@ == old(self).checkpointing_queues@.remove(chain_key),
                self.attestation_removal_queues@ == old(self).attestation_removal_queues@.remove(chain_key),
                self.last_digest@ == old(self).last_digest@.remove(chain_key),
                self.last_checkpoint == old(self).last_checkpoint,
                self.checkpoint_clearing == old(self).checkpoint_clearing,
                self.bucket_clearing == old(self).bucket_clearing,
                self.checkpoint_pruning_states == old(self).checkpoint_pruning_states,
                events@ == e0 + checkpoint_events(chain_key, listing),
                e0 == old(events)@,
                prev is None <==> listing.len() == 0,
                prev is Some ==> listing.last().block_number == prev->0,
                forall|j: int| 0 <= j < listing.len() ==> #[trigger] mm.contains_key(listing[j].block_number)
                    && mm[listing[j].block_number] == listing[j].digest && !above_prev(prev, listing[j].block_number),
                forall|a: int, b: int| 0 <= a < b < listing.len() ==> #[trigger] listing[a].block_number < #[trigger] listing[b].block_number,
                forall|k: u64| #[trigger] mm.contains_key(k) && !above_prev(prev, k) ==> exists|j: int| 0 <= j < listing.len() && listing[j].block_number == k,
            ensures
                forall|c: u64| #[trigger] mm.contains_key(c) ==> !above_prev(prev, c),
            decreases (if prev is None { u64::MAX as int + 1 } else { u64::MAX - prev->0 }),
        {
            match next_entry_above(&merged, prev) {
                None => {
                    break;
                },
                Some((k, d)) => {
                    let cp = AttestationCheckpoint { block_number: k, digest: d };
                    self.store_checkpoint(chain_key, cp, events);
                    proof {
                        let lp0 = listed_part(mm, prev);
                        let lp1 = listed_part(mm, Some(k));
                        assert(lp1 =~= lp0.insert(k, d));
                        assert(lift_checkpoints(chain_key, lp1) =~= lift_checkpoints(chain_key, lp0).insert((chain_key, k), d));
                        assert(c1.union_prefer_right(lift_checkpoints(chain_key, lp1)) =~= c1.union_prefer_right(
                            lift_checkpoints(chain_key, lp0),
                        ).insert((chain_key, k), d));
                        assert(lift_buckets(chain_key, lp1) =~= lift_buckets(chain_key, lp0).insert(
                            (chain_key, bucket_index(k), k),
                            (),
                        ));
                        assert(b1.union_prefer_right(lift_buckets(chain_key, lp1)) =~= b1.union_prefer_right(
                            lift_buckets(chain_key, lp0),
                        ).insert((chain_key, bucket_index(k), k), ()));
                        let l1 = listing.push(cp);
                        assert(checkpoint_events(chain_key, l1) =~= checkpoint_events(chain_key, listing).push(
                            Event::CheckpointReached(chain_key, cp),
                        ));
                        assert forall|x: u64| #[trigger] mm.contains_key(x) && !above_prev(Some(k), x) implies exists|j: int|
                            0 <= j < l1.len() && l1[j].block_number == x by {
                            if x == k {
                                assert(l1[listing.len() as int].block_number == x);
                            } else {
                                assert(!above_prev(prev, x));
                                let j = choose|j: int| 0 <= j < listing.len() && listing[j].block_number == x;
                                assert(l1[j].block_number == x);
                            }
                        }
                        listing = l1;
                    }
                    prev = Some(k);
                },
            }
        }
        proof {
            assert(listed_part(mm, prev) =~= mm);
            let bs = listing.map_values(|c: AttestationCheckpoint| c.block_number);
            assert forall|a: int, b: int| 0 <= a < bs.len() && 0 <= b < bs.len() && a != b implies bs[a] != bs[b] by {
                if a < b {
                    assert(listing[a].block_number < listing[b].block_number);
                } else {
                    assert(listing[b].block_number < listing[a].block_number);
                }
            }
            assert(bs.no_duplicates());
            assert forall|x: u64| #[trigger] bs.to_set().contains(x) <==> mm.dom().contains(x) by {
                if bs.to_set().contains(x) {
                    let j = choose|j: int| 0 <= j < bs.len() && bs[j] == x;
                    assert(mm.contains_key(listing[j].block_number));
                }
                if mm.dom().contains(x) {
                    let j = choose|j: int| 0 <= j < listing.len() && listing[j].block_number == x;
                    assert(bs[j] == x);
                }
            }
            assert(bs.to_set() =~= mm.dom());
            bs.unique_seq_to_set();
            assert(ascending_listing(listing, mm));
        }
        let new_last = match self.last_checkpoint.get(&chain_key) {
            Some(lc) => if !wipe_suffix && lc.block_number > tip {
                *lc
            } else {
                AttestationCheckpoint { block_number: tip, digest: tip_digest }
            },
            None => AttestationCheckpoint { block_number: tip, digest: tip_digest },
        };
        self.last_checkpoint.insert(chain_key, new_last);
        let ev = Event::ForwardCheckpointPatchApplied {
            chain_key,
            wiped_suffix: wipe_suffix,
            tip_block_number: new_last.block_number,
        };
        events.push(ev);
        proof {
            assert(events@.skip(old(events)@.len() as int) =~= checkpoint_events(chain_key, listing) + seq![ev]);
            assert(events@.take(old(events)@.len() as int) =~= old(events)@);
        }
        Ok(())
    }
}

impl ChainStore {
    /// The digest of the latest finalized point of `chain_key`.
    pub fn last_digest_of(&self, chain_key: ChainKey) -> (r: Option<Digest>)
        requires
            self.wf(),
        ensures
            r == last_finalized_digest(
                self.last_digest@.get(chain_key),
                self.last_checkpoint@.get(chain_key),
            ),
    {
        match self.last_digest.get(&chain_key) {
            Some(ld) => Some(ld.1),
            None => match self.last_checkpoint.get(&chain_key) {
                Some(cp) => Some(cp.digest),
                None => None,
            },
        }
    }

    /// Whether `digest` is a stored attestation of `chain_key` or its checkpoint at
    /// `block_number`.
    pub fn contains_digest(&self, chain_key: ChainKey, digest: Digest, block_number: u64) -> (b: bool)
        requires
            self.wf(),
        ensures
            b == (self.attestations@.contains_key((chain_key, digest)) || (
            self.checkpoints@.contains_key((chain_key, block_number))
                && self.checkpoints@[(chain_key, block_number)] == digest)),
    {
        if self.attestations.contains_key(&(chain_key, digest)) {
            return true;
        }
        match self.checkpoints.get(&(chain_key, block_number)) {
            Some(d) => *d == digest,
            None => false,
        }
    }

    /// The header number of the finalized point of `chain_key` whose digest is `d`.
    pub fn finalized_header_of(&self, chain_key: ChainKey, d: Digest) -> (r: Option<u64>)
        requires
            self.wf(),
        ensures
            r == finalized_header(self.attestations@, self.last_checkpoint@.get(chain_key), chain_key, d),
    {
        match self.attestations.get(&(chain_key, d)) {
            Some(a) => Some(a.header_number),
            None => match self.last_checkpoint.get(&chain_key) {
                Some(cp) => if cp.digest == d {
                    Some(cp.block_number)
                } else {
                    None
                },
                None => None,
            },
        }
    }

    /// Checks that `a` links to the finalized state of its chain, whose attestation
    /// chain starts at block `genesis`.
    pub fn validate_attestation_continuity(&self, a: &SignedAttestation, genesis: u64) -> (r: Result<(), Error>)
        requires
            self.wf(),
        ensures
            r == continuity_check(
                self.attestations@,
                self.last_checkpoint@.get(a.chain_key),
                self.last_digest@.get(a.chain_key),
                genesis,
                *a,
            ),
    {
        let ck = a.chain_key;
        if a.header_number == genesis {
            if a.prev_digest.is_none() {
                return Ok(());
            } else {
                return Err(Error::InvalidAttestationPrevDigest);
            }
        }
        let prev = match a.prev_digest {
            Some(p) => p,
            None => {
                return Err(Error::InvalidAttestationPrevDigest);
            },
        };
        if prev.is_zero() {
            return Err(Error::InvalidAttestationPrevDigest);
        }
        let lf = match self.last_digest_of(ck) {
            Some(d) => d,
            None => {
                return Err(Error::NoFinalizedAttestation);
            },
        };
        if prev == lf && a.continuity_proof.is_empty() {
            let h = match self.finalized_header_of(ck, prev) {
                Some(h) => h,
                None => {
                    return Err(Error::InvalidAttestationPrevDigest);
                },
            };
            if (a.header_number as u128) == (h as u128) + 1 {
                return Ok(());
            } else {
                return Err(Error::InvalidAttestationPrevDigest);
            }
        }
        if a.continuity_proof.is_empty() {
            return Err(Error::EmptyContinuityProof);
        }
        let tail = a.continuity_proof.start_block_number(a.header_number);
        let tail_prev = match a.continuity_proof.tail_prev_digest() {
            Some(d) => d,
            None => {
                return Err(Error::InvalidAttestationContinuityProofTail);
            },
        };
        let h = match self.finalized_header_of(ck, tail_prev) {
            Some(h) => h,
            None => {
                return Err(Error::InvalidAttestationContinuityProofTail);
            },
        };
        if (h as u128) + 1 != (tail as u128) {
            return Err(Error::InvalidAttestationContinuityProofTail);
        }
        let reconstructed = a.continuity_proof.compute_continuity_digest();
        if reconstructed != prev {
            return Err(Error::InvalidAttestationContinuityProofHead);
        }
        Ok(())
    }

    /// Whether `a` repeats a stored attestation or does not lie above its chain's last
    /// checkpoint.
    pub fn check_duplicate(&self, a: &SignedAttestation) -> (b: bool)
        requires
            self.wf(),
        ensures
            b == is_duplicate(self.attestations@, self.last_checkpoint@.get(a.chain_key), *a),
    {
        if self.attestations.contains_key(&(a.chain_key, a.digest)) {
            return true;
        }
        match self.last_checkpoint.get(&a.chain_key) {
            Some(cp) => a.header_number <= cp.block_number,
            None => false,
        }
    }
}

/// Once a prefix of the queue knows block `b`, the whole queue gives that digest.
proof fn lemma_queued_prefix(
    atts: Map<(ChainKey, Digest), SignedAttestation>,
    chain_key: ChainKey,
    queue: Seq<Digest>,
    b: int,
    k: int,
)
    requires
        0 <= k <= queue.len(),
        queued_block_digest(atts, chain_key, queue.take(k), b) is Some,
    ensures
        queued_block_digest(atts, chain_key, queue, b) == queued_block_digest(
            atts,
            chain_key,
            queue.take(k),
            b,
        ),
    decreases queue.len() - k,
{
    if k < queue.len() {
        assert(queue.take(k + 1).drop_last() =~= queue.take(k));
        lemma_queued_prefix(atts, chain_key, queue, b, k + 1);
    } else {
        assert(queue.take(k) =~= queue);
    }
}

/// The entries `lo..hi` of a sequence of digests.
pub fn digests_subrange(v: &Vec<Digest>, lo: usize, hi: usize) -> (r: Vec<Digest>)
    requires
        lo <= hi <= v@.len(),
    ensures
        r@ == v@.subrange(lo as int, hi as int),
{
    let mut r: Vec<Digest> = Vec::new();
    let mut i: usize = lo;
    while i < hi
        invariant
            lo <= i <= hi,
            hi <= v@.len(),
            r@ == v@.subrange(lo as int, i as int),
        decreases hi - i,
    {
        r.push(v[i]);
        proof {
            assert(v@.subrange(lo as int, i + 1) =~= v@.subrange(lo as int, i as int).push(v@[i as int]));
        }
        i = i + 1;
    }
    r
}

/// What `try_make_checkpoint` does to the store `pre` (becoming `post`), the queue
/// `q0` (becoming `q1`) and the events `e0` (becoming `e1`), returning `r`.
pub open spec fn checkpoint_effect(
    pre: ChainStore,
    post: ChainStore,
    q0: Seq<Digest>,
    q1: Seq<Digest>,
    e0: Seq<Event>,
    e1: Seq<Event>,
    chain_key: ChainKey,
    attestation_header: u64,
    attestation_interval: u64,
    checkpoint_interval: u32,
    retention: u32,
    r: Result<(), Error>,
) -> bool {
    match checkpoint_decision(
        pre.attestations@,
        pre.last_checkpoint@.get(chain_key),
        chain_key,
        q0,
        attestation_header,
        attestation_interval,
        checkpoint_interval,
    ) {
        Err(e) => r == Err::<(), Error>(e) && post.unchanged_from(pre)
            && q1 == q0 && e1 == e0,
        Ok(None) => r is Ok && post.unchanged_from(pre) && q1
            == q0 && e1 == e0,
        Ok(Some((c, cp))) => {
            let rq = pre.removal_queue(chain_key) + q0.take(c);
            &&& r is Ok
            &&& q1 == q0.skip(c)
            &&& post.checkpoints@ == pre.checkpoints@.insert(
                (chain_key, cp.block_number),
                cp.digest,
            )
            &&& post.checkpoint_buckets@ == pre.checkpoint_buckets@.insert(
                (chain_key, bucket_index(cp.block_number), cp.block_number),
                (),
            )
            &&& post.last_checkpoint@ == pre.last_checkpoint@.insert(
                chain_key,
                cp,
            )
            &&& post.attestations@ == without_attestations(
                pre.attestations@,
                chain_key,
                rq.take(excess(rq.len(), retention)),
            )
            &&& post.removal_queue(chain_key) == rq.skip(
                excess(rq.len(), retention),
            )
            &&& post.attestation_removal_queues@ == pre.attestation_removal_queues@.insert(
                chain_key,
                post.attestation_removal_queues@[chain_key],
            )
            &&& post.checkpointing_queues == pre.checkpointing_queues
            &&& post.last_digest == pre.last_digest
            &&& post.checkpoint_clearing == pre.checkpoint_clearing
            &&& post.bucket_clearing == pre.bucket_clearing
            &&& post.checkpoint_pruning_states == pre.checkpoint_pruning_states
            &&& e1 == e0.push(Event::CheckpointReached(chain_key, cp))
        },
    }
}

/// What `create_checkpoints_from_continuity_proof` does to the store `pre` (becoming
/// `post`) and the events `e0` (becoming `e1`), returning `r`.
pub open spec fn catchup_effect(
    pre: ChainStore,
    post: ChainStore,
    e0: Seq<Event>,
    e1: Seq<Event>,
    chain_key: ChainKey,
    attestation: SignedAttestation,
    attestation_digest: Digest,
    attestation_interval: u64,
    checkpoint_interval: u32,
    retention: u32,
    r: Result<bool, Error>,
) -> bool {
    match catchup_plan(
        pre.attestations@,
        pre.last_checkpoint@.get(chain_key),
        chain_key,
        attestation,
        attestation_digest,
        pre.checkpointing_queue(chain_key),
        attestation_interval,
        checkpoint_interval,
    ) {
        Err(e) => r == Err::<bool, Error>(e) && post.unchanged_from(pre)
            && e1 == e0,
        Ok(cps) => if cps.len() == 0 {
            r == Ok::<bool, Error>(false) && post.unchanged_from(pre)
                && e1 == e0
        } else {
            let rq = pre.removal_queue(chain_key) + pre.checkpointing_queue(
                chain_key,
            ) + seq![attestation_digest];
            &&& r == Ok::<bool, Error>(true)
            &&& post.checkpoints@ == with_checkpoints(
                pre.checkpoints@,
                chain_key,
                cps,
            )
            &&& post.checkpoint_buckets@ == with_bucket_entries(
                pre.checkpoint_buckets@,
                chain_key,
                cps,
            )
            &&& post.last_checkpoint@ == pre.last_checkpoint@.insert(
                chain_key,
                cps.last(),
            )
            &&& post.attestations@ == without_attestations(
                pre.attestations@,
                chain_key,
                rq.take(excess(rq.len(), retention)),
            )
            &&& post.removal_queue(chain_key) == rq.skip(
                excess(rq.len(), retention),
            )
            &&& post.attestation_removal_queues@ == pre.attestation_removal_queues@.insert(
                chain_key,
                post.attestation_removal_queues@[chain_key],
            )
            &&& post.checkpointing_queues@ == pre.checkpointing_queues@.remove(
                chain_key,
            )
            &&& post.last_digest == pre.last_digest
            &&& post.checkpoint_clearing == pre.checkpoint_clearing
            &&& post.bucket_clearing == pre.bucket_clearing
            &&& post.checkpoint_pruning_states == pre.checkpoint_pruning_states
            &&& e1 == e0 + checkpoint_events(chain_key, cps)
        },
    }
}

/// A copy of a sequence of digests.
pub fn copy_digests(v: &Vec<Digest>) -> (r: Vec<Digest>)
    ensures
        r@ == v@,
{
    let mut r: Vec<Digest> = Vec::new();
    let mut i: usize = 0;
    while i < v.len()
        invariant
            i <= v@.len(),
            r@ == v@.take(i as int),
        decreases v@.len() - i,
    {
        r.push(v[i]);
        proof {
            assert(v@.take(i + 1) =~= v@.take(i as int).push(v@[i as int]));
        }
        i = i + 1;
    }
    proof {
        assert(v@.take(v@.len() as int) =~= v@);
    }
    r
}

} // verus!
