use bls_signatures::{aggregate, PrivateKey, Serialize};
use creditcoin_pallets::attestation::balances::get_free_balance;
use creditcoin_pallets::attestation::genesis::{AttestationChainConfiguration, GenesisConfig};
use creditcoin_pallets::attestation::model::{
    AttestationCheckpoint, AttestorElectionPolicy, AttestorStatus, ContinuityProof, Error, Event, RuntimeAction,
    SignedAttestation,
};
use creditcoin_pallets::attestation::pallet::{AttestationPallet, ChainParams, PalletConstants};
use creditcoin_pallets::attestation::store::ChainStore;
use creditcoin_pallets::supported_chains::{GenesisConfig as ChainsGenesis, SupportedChainsPallet};
use creditcoin_pallets::types::{BlsPublicKey, Digest};
use std::collections::HashMap;

// The runtime these tests drive: accounts 0 to 6, chain 200 "Ethereum" under key 1,
// one invulnerable, three blocks per epoch and three epochs per era.

const ALICE: u64 = 1;
const STASH_1: u64 = 1;
const STASH_2: u64 = 2;
const STASH_3: u64 = 3;
const ATTESTOR_1: u64 = 4;
const ATTESTOR_2: u64 = 5;
const ATTESTOR_3: u64 = 6;
const SOURCE_CHAIN_ID: u64 = 200;
const SUPPORTED_CHAIN_KEY: u64 = 1;
const BOND_POOL: u64 = 1_000;
const EXISTENTIAL_DEPOSIT: u128 = 500;
const ONE_TENTH_CTC: u128 = 100_000_000_000_000_000;
const DEFAULT_MIN_BOND: u128 = 100_000_000_000_000_000_000;
const MAX_ATTESTATION_NODES: u32 = 100;
const DEFAULT_TARGET_SAMPLE_SIZE: u32 = 1;
const DEFAULT_ATTESTATION_INTERVAL: u64 = 10;
const DEFAULT_ATTESTATIONS_PER_CHECKPOINT: u32 = 10;
const BLOCKS_PER_EPOCH: u64 = 3;
const EPOCHS_PER_ERA: u64 = 3;

#[derive(Clone, Copy, Debug, PartialEq)]
enum Origin {
    Root,
    Signed(u64),
    Unsigned,
}

impl Origin {
    fn signed(who: u64) -> Origin {
        Origin::Signed(who)
    }

    fn none() -> Origin {
        Origin::Unsigned
    }

    fn root() -> Origin {
        Origin::Root
    }

    /// Root, or a signed member of the operators (ALICE).
    fn operator(self) -> bool {
        match self {
            Origin::Root => true,
            Origin::Signed(who) => who == ALICE,
            Origin::Unsigned => false,
        }
    }

    fn signer(self) -> Option<u64> {
        match self {
            Origin::Signed(who) => Some(who),
            _ => None,
        }
    }
}

fn key_from_bytes(b: &[u8]) -> BlsPublicKey {
    let w = |i: usize| {
        let mut x: u64 = 0;
        for k in 0..8 {
            x = (x << 8) | b[i * 8 + k] as u64;
        }
        x
    };
    BlsPublicKey { w0: w(0), w1: w(1), w2: w(2), w3: w(3), w4: w(4), w5: w(5) }
}

fn digest_from_bytes(b: &[u8; 32]) -> Digest {
    let w = |i: usize| {
        let mut x: u64 = 0;
        for k in 0..8 {
            x = (x << 8) | b[i * 8 + k] as u64;
        }
        x
    };
    Digest { w0: w(0), w1: w(1), w2: w(2), w3: w(3) }
}

/// A 256-bit hash of `bytes` (four FNV-style lanes), standing for the chain's hash.
fn hash_bytes(bytes: &[u8]) -> Digest {
    let mut w: [u64; 4] = [0xcbf2_9ce4_8422_2325, 0x8422_2325_cbf2_9ce4, 0x9e37_79b9_7f4a_7c15, 0xc2b2_ae3d_27d4_eb4f];
    for (i, b) in bytes.iter().enumerate() {
        for (j, lane) in w.iter_mut().enumerate() {
            *lane ^= (*b as u64).wrapping_add((i as u64) << (j * 3));
            *lane = lane.wrapping_mul(0x0000_0100_0000_01b3 + 2 * j as u64);
        }
    }
    Digest { w0: w[0], w1: w[1], w2: w[2], w3: w[3] }
}

/// The digest of block `number` with root `root`, chained to `prev`.
fn block_digest(prev: Digest, number: u64, root: u8) -> Digest {
    let mut bytes = prev.to_bytes();
    bytes.extend_from_slice(&number.to_be_bytes());
    bytes.extend_from_slice(&[root; 32]);
    hash_bytes(&bytes)
}

/// The blocks between an attested state and the next attested block.
#[derive(Clone, Debug)]
struct Fragment {
    lower: Digest,
    digests: Vec<Digest>,
}

impl Fragment {
    fn empty() -> Fragment {
        Fragment { lower: Digest::zero(), digests: Vec::new() }
    }

    fn head(&self) -> Option<Digest> {
        self.digests.last().copied()
    }
}

/// The blocks `start..=end`, chained from `prev` (or from nothing), all with a zero root.
fn construct_fragment(prev: Option<Digest>, start: u64, end: u64) -> Fragment {
    let lower = prev.unwrap_or(Digest::zero());
    let mut d = lower;
    let mut digests = Vec::new();
    let mut b = start;
    while b <= end {
        d = block_digest(d, b, 0);
        digests.push(d);
        b += 1;
    }
    Fragment { lower, digests }
}

/// The data an attestation attests, which its attestors sign.
#[derive(Clone, Debug)]
struct AttestationData {
    chain_key: u64,
    header_number: u64,
    header_hash: Digest,
    prev_digest: Option<Digest>,
}

impl AttestationData {
    fn serialize(&self) -> Vec<u8> {
        let mut v = Vec::new();
        v.extend_from_slice(&self.chain_key.to_be_bytes());
        v.extend_from_slice(&self.header_number.to_be_bytes());
        v.extend_from_slice(&self.header_hash.to_bytes());
        v.extend_from_slice(&[0u8; 32]);
        match self.prev_digest {
            Some(d) => {
                v.push(1);
                v.extend_from_slice(&d.to_bytes());
            }
            None => v.push(0),
        }
        v
    }

    fn digest(&self) -> Digest {
        hash_bytes(&self.serialize())
    }
}

#[derive(Clone, Debug)]
struct TestAttestation {
    data: AttestationData,
    signature: Vec<u8>,
    attestors: Vec<u64>,
    fragment: Fragment,
}

impl TestAttestation {
    fn digest(&self) -> Digest {
        self.data.digest()
    }

    fn header_number(&self) -> u64 {
        self.data.header_number
    }

    fn chain_key(&self) -> u64 {
        self.data.chain_key
    }

    fn prev_digest(&self) -> Option<Digest> {
        self.data.prev_digest
    }

    fn signed(&self) -> SignedAttestation {
        SignedAttestation {
            chain_key: self.data.chain_key,
            header_number: self.data.header_number,
            digest: self.digest(),
            prev_digest: self.data.prev_digest,
            message: self.data.serialize(),
            signature: self.signature.clone(),
            attestors: self.attestors.clone(),
            continuity_proof: ContinuityProof {
                lower_endpoint_digest: self.fragment.lower,
                digests: self.fragment.digests.clone(),
            },
        }
    }

    fn same_as(&self, a: &SignedAttestation) -> bool {
        a.chain_key == self.data.chain_key
            && a.header_number == self.data.header_number
            && a.digest == self.digest()
            && a.prev_digest == self.data.prev_digest
            && a.message == self.data.serialize()
            && a.signature == self.signature
            && a.attestors == self.attestors
    }
}

#[derive(Clone)]
struct Attestor {
    stash: Origin,
    stash_id: u64,
    attestor_id: u64,
    private_key: PrivateKey,
    public_key: BlsPublicKey,
    signature: Vec<u8>,
}

impl Attestor {
    fn new(stash_id: u64, attestor_id: u64) -> Self {
        let mut seed = [0x5au8; 32];
        seed[0] = stash_id as u8;
        seed[1] = attestor_id as u8;
        let private_key = PrivateKey::new(seed);
        let pk_bytes = private_key.public_key().as_bytes();
        let signature = private_key.sign(&pk_bytes).as_bytes();
        Self {
            stash: Origin::signed(stash_id),
            stash_id,
            attestor_id,
            private_key,
            public_key: key_from_bytes(&pk_bytes),
            signature,
        }
    }

    fn sign(&self, message: &[u8]) -> bls_signatures::Signature {
        self.private_key.sign(message)
    }
}

fn bls_sign_attestation(attestors: &[Attestor], data: AttestationData, fragment: &Fragment) -> TestAttestation {
    let message = data.serialize();
    let signatures: Vec<bls_signatures::Signature> = attestors.iter().map(|a| a.sign(&message)).collect();
    let aggregated = aggregate(&signatures).expect("Failed to aggregate signatures");
    TestAttestation {
        data,
        signature: aggregated.as_bytes(),
        attestors: attestors.iter().map(|a| a.attestor_id).collect(),
        fragment: fragment.clone(),
    }
}

/// The next attestation of `chain_key`: at `header_number`, with the blocks since the
/// attestation `prev_digest` as its continuity proof (or the given fragment).
fn create_signed_attestation(
    ext: &mut Ext,
    attestors: &[Attestor],
    chain_key: u64,
    header_number: u64,
    prev_digest: Option<Digest>,
    fragment: Option<Fragment>,
) -> TestAttestation {
    let fragment = match fragment {
        Some(f) => f,
        None => construct_fragment(prev_digest, 1, header_number.saturating_sub(1)),
    };
    let data = AttestationData {
        chain_key,
        header_number,
        header_hash: ext.random_hash(),
        prev_digest: fragment.head(),
    };
    bls_sign_attestation(attestors, data, &fragment)
}

/// Two thirds of the sample, plus one, must sign.
fn calculate_threshold(target_sample_size: u32) -> u32 {
    target_sample_size * 2 / 3 + 1
}

struct Ext {
    att: AttestationPallet,
    chains: SupportedChainsPallet,
    events: Vec<Event>,
    balances: HashMap<u64, u128>,
    block: u64,
    salt: u64,
}

impl Ext {
    fn build() -> Ext {
        let defaults = ChainParams {
            attestation_interval: DEFAULT_ATTESTATION_INTERVAL,
            checkpoint_interval: DEFAULT_ATTESTATIONS_PER_CHECKPOINT,
            retention: 10,
            target_sample_size: DEFAULT_TARGET_SAMPLE_SIZE,
            max_attestors: MAX_ATTESTATION_NODES,
            max_invulnerables: MAX_ATTESTATION_NODES,
            min_bond: DEFAULT_MIN_BOND,
            genesis_block_number: 0,
            election_policy: AttestorElectionPolicy::OpenToAny,
            max_catchup: 500,
        };
        let constants = PalletConstants {
            max_unlocking_chunks: 10,
            bonding_duration: 3,
            bond_existential_deposit: EXISTENTIAL_DEPOSIT,
            native_existential_deposit: EXISTENTIAL_DEPOSIT,
            bond_pool: BOND_POOL,
            attestor_funding: ONE_TENTH_CTC,
            max_retired_per_stash: 64,
        };
        let mut att = AttestationPallet::new(defaults, constants);
        let mut chains = SupportedChainsPallet::new("FixedDelay:10".to_string());
        let chains_genesis = ChainsGenesis {
            supported_chains: vec![(SOURCE_CHAIN_ID, b"Ethereum".to_vec(), 1, "FixedDelay:10".to_string())],
        };
        assert!(!chains_genesis.has_duplicate(&chains));
        chains_genesis.build(&mut chains);
        let invulnerable = Attestor::new(ATTESTOR_3, STASH_3);
        let genesis = GenesisConfig {
            invulnerables: vec![(ATTESTOR_3, invulnerable.public_key)],
            attestation_chain_configurations: vec![AttestationChainConfiguration {
                chain_key: SUPPORTED_CHAIN_KEY,
                target_sample_size: DEFAULT_TARGET_SAMPLE_SIZE,
                attestation_interval: 10,
                attestations_per_checkpoint: 10,
                checkpoints: vec![],
            }],
        };
        genesis.build(&mut att, MAX_ATTESTATION_NODES);
        let mut balances = HashMap::new();
        balances.insert(0, 900_000_000_000_000_000_000);
        balances.insert(STASH_1, 900_000_000_000_000_000_000);
        balances.insert(ATTESTOR_1, 900_000_000_000_000_000_000);
        balances.insert(STASH_2, 5_000_000_000_000_000_000_000);
        balances.insert(ATTESTOR_2, 5_000_000_000_000_000_000_000);
        balances.insert(STASH_3, 1_000_000_000_000_000_000_000);
        Ext { att, chains, events: Vec::new(), balances, block: 1, salt: 0 }
    }

    fn random_hash(&mut self) -> Digest {
        self.salt += 1;
        let mut bytes = b"header".to_vec();
        bytes.extend_from_slice(&self.salt.to_be_bytes());
        hash_bytes(&bytes)
    }

    fn balance(&self, who: u64) -> u128 {
        *self.balances.get(&who).unwrap_or(&0)
    }

    /// The bond held for `who` in the pool.
    fn get_locked_balance(&self, who: u64) -> u128 {
        match self.att.ledgers.get(&who) {
            Some(l) => l.total_staked,
            None => 0,
        }
    }

    /// What `who` can still bond: the bond sits in the pool, so no lock holds its balance.
    fn get_free_balance(&self, who: u64) -> u128 {
        get_free_balance(self.balance(who), EXISTENTIAL_DEPOSIT, 0)
    }

    fn apply(&mut self, actions: &[RuntimeAction]) {
        for a in actions {
            match *a {
                RuntimeAction::NativeTransfer { from, to, amount } => {
                    let f = self.balance(from);
                    assert!(f >= amount + EXISTENTIAL_DEPOSIT, "transfer would reap the sender");
                    self.balances.insert(from, f - amount);
                    let t = self.balance(to);
                    self.balances.insert(to, t + amount);
                }
                RuntimeAction::BondTransfer { from, to, amount } => {
                    let f = self.balance(from);
                    assert!(f >= amount, "bond transfer exceeds the balance");
                    self.balances.insert(from, f - amount);
                    let t = self.balance(to);
                    self.balances.insert(to, t + amount);
                }
                RuntimeAction::IncConsumers(_) | RuntimeAction::DecConsumers(_) => {}
            }
        }
    }

    fn era(&self) -> u32 {
        ((self.block - 1) / (BLOCKS_PER_EPOCH * EPOCHS_PER_ERA)) as u32
    }

    fn epoch_of(block: u64) -> u64 {
        (block - 1) / BLOCKS_PER_EPOCH
    }

    fn supported(&self, chain_key: u64) -> bool {
        self.chains.is_chain_supported(chain_key)
    }

    fn progress_to_block(&mut self, n: u64) {
        while self.block < n {
            let prev_epoch = Ext::epoch_of(self.block);
            self.block += 1;
            let epoch = Ext::epoch_of(self.block);
            if epoch != prev_epoch {
                let supported = self.chains.supported_chains();
                self.att.on_new_epoch_randomness(epoch, &supported, &mut self.events);
            }
            self.att.store.on_initialize(&mut self.events);
        }
    }

    fn last_event(&self) -> Option<Event> {
        self.events.last().cloned()
    }

    fn has_event(&self, e: Event) -> bool {
        self.events.contains(&e)
    }

    fn threshold(&self, chain_key: u64) -> u32 {
        calculate_threshold(self.att.params_for(chain_key).target_sample_size)
    }

    // Calls of the pallet, as the runtime dispatches them.

    fn set_min_bond_requirement(&mut self, o: Origin, ck: u64, v: u128) -> Result<(), Error> {
        self.att.set_min_bond_requirement(o.operator(), ck, v, &mut self.events)
    }

    fn set_max_attestors(&mut self, o: Origin, ck: u64, v: u32) -> Result<(), Error> {
        self.att.set_max_attestors(o.operator(), ck, v, &mut self.events)
    }

    fn set_max_invulnerables(&mut self, o: Origin, ck: u64, v: u32) -> Result<(), Error> {
        self.att.set_max_invulnerables(o.operator(), ck, v)
    }

    fn register_invulnerable(&mut self, o: Origin, ck: u64, id: u64) -> Result<(), Error> {
        self.att.register_invulnerable(o.operator(), ck, id, &mut self.events)
    }

    fn unregister_invulnerable(&mut self, o: Origin, ck: u64, id: u64) -> Result<(), Error> {
        self.att.unregister_invulnerable(o.operator(), ck, id, &mut self.events)
    }

    fn set_target_sample_size(&mut self, o: Origin, ck: u64, v: u32) -> Result<(), Error> {
        self.att.set_target_sample_size(o.operator(), ck, v, &mut self.events)
    }

    fn set_chain_attestation_interval(&mut self, o: Origin, ck: u64, v: u64) -> Result<(), Error> {
        let s = self.supported(ck);
        self.att.set_chain_attestation_interval(o.operator(), ck, v, s, &mut self.events)
    }

    fn set_attestations_per_checkpoint(&mut self, o: Origin, ck: u64, v: u32) -> Result<(), Error> {
        let s = self.supported(ck);
        self.att.set_attestations_per_checkpoint(o.operator(), ck, v, s, &mut self.events)
    }

    fn set_attestation_chain_genesis_block_number(&mut self, o: Origin, ck: u64, v: u64) -> Result<(), Error> {
        let s = self.supported(ck);
        self.att.set_attestation_chain_genesis_block_number(o.operator(), ck, v, s, &mut self.events)
    }

    fn set_election_policy(&mut self, o: Origin, ck: u64, p: AttestorElectionPolicy) -> Result<(), Error> {
        let s = self.supported(ck);
        self.att.set_election_policy(o.operator(), ck, p, s, &mut self.events)
    }

    fn authorize_attestor(&mut self, o: Origin, ck: u64, id: u64) -> Result<(), Error> {
        let s = self.supported(ck);
        self.att.authorize_attestor(o.operator(), ck, id, s, &mut self.events)
    }

    fn remove_authorized_attestor(&mut self, o: Origin, ck: u64, id: u64) -> Result<(), Error> {
        self.att.remove_authorized_attestor(o.operator(), ck, id, &mut self.events)
    }

    fn kick_active_attestor(&mut self, o: Origin, ck: u64, id: u64, unregister: bool) -> Result<(), Error> {
        let era = self.era();
        self.att.kick_active_attestor(o.operator(), ck, id, unregister, era, &mut self.events)
    }

    fn register_attestor(&mut self, o: Origin, ck: u64, id: u64) -> Result<(), Error> {
        let s = self.supported(ck);
        let (bondable, stash_free) = match o.signer() {
            // The bond held in the pool still belongs to the stash's free balance.
            Some(stash) => (self.get_free_balance(stash), self.balance(stash) + self.get_locked_balance(stash)),
            None => (0, 0),
        };
        let actions = self.att.register_attestor(o.signer(), ck, id, s, bondable, stash_free, &mut self.events)?;
        self.apply(&actions);
        Ok(())
    }

    fn unregister_attestor(&mut self, o: Origin, ck: u64, id: u64) -> Result<(), Error> {
        let era = self.era();
        self.att.unregister_attestor(o.signer(), ck, id, era, &mut self.events)
    }

    fn attest(&mut self, o: Origin, ck: u64, key: BlsPublicKey, proof: &[u8]) -> Result<(), Error> {
        let proof = proof.to_vec();
        self.att.attest(o.signer(), ck, key, &proof, &mut self.events)
    }

    fn chill(&mut self, o: Origin, ck: u64, id: u64) -> Result<(), Error> {
        self.att.chill(o.signer(), ck, id, &mut self.events)
    }

    fn withdraw_unbonded(&mut self, o: Origin) -> Result<(), Error> {
        let era = self.era();
        let actions = self.att.withdraw_unbonded(o.signer(), era, EXISTENTIAL_DEPOSIT, &mut self.events)?;
        self.apply(&actions);
        Ok(())
    }

    fn bootstrap_chain(&mut self, o: Origin, a: &TestAttestation) -> Result<(), Error> {
        let s = self.supported(a.chain_key());
        self.att.bootstrap_chain(o.operator(), a.signed(), s, &mut self.events)
    }

    fn commit_attestation(&mut self, o: Origin, a: &TestAttestation) -> Result<(), Error> {
        let s = self.supported(a.chain_key());
        let t = self.threshold(a.chain_key());
        self.att.commit_attestation(o.signer(), a.signed(), s, t, &mut self.events)
    }

    fn validate_attestation(&self, a: &TestAttestation) -> Result<(), Error> {
        let s = self.supported(a.chain_key());
        let t = self.threshold(a.chain_key());
        self.att.validate_attestation(&a.signed(), s, t)
    }

    fn import_checkpoints(&mut self, o: Origin, ck: u64, cps: &Vec<AttestationCheckpoint>) -> Result<(), Error> {
        let s = self.supported(ck);
        self.att.import_checkpoints(o.operator(), ck, s, cps, &mut self.events)
    }

    fn remove_chain(&mut self, ck: u64, remove_checkpoints: bool) {
        let mut chain_events = Vec::new();
        let r = self.chains.remove_chain(true, &mut self.att, ck, remove_checkpoints, &mut self.events, &mut chain_events);
        assert!(r.is_ok());
    }

    // Storage reads.

    fn attestor(&self, ck: u64, id: u64) -> Option<creditcoin_pallets::attestation::model::Attestor> {
        self.att.attestors.get(&(ck, id)).copied()
    }

    fn is_invulnerable(&self, ck: u64, id: u64) -> bool {
        self.att.invulnerables.contains_key(&(ck, id))
    }

    fn invulnerable_count(&self, ck: u64) -> usize {
        self.att.invulnerables.keys_of_chain(ck).len()
    }

    fn attestors_of_chain(&self, ck: u64) -> usize {
        self.att.attestors.keys_of_chain(ck).len()
    }

    fn checkpoint(&self, ck: u64, b: u64) -> Option<Digest> {
        self.att.store.checkpoints.get(&(ck, b)).copied()
    }

    fn last_checkpoint(&self, ck: u64) -> Option<AttestationCheckpoint> {
        self.att.store.last_checkpoint.get(&ck).copied()
    }

    fn last_attestation_digest(&self, ck: u64) -> Option<(u64, Digest)> {
        self.att.store.last_digest.get(&ck).copied()
    }

    fn stored(&self, ck: u64, d: Digest) -> Option<&SignedAttestation> {
        self.att.store.attestations.get(&(ck, d))
    }

    fn checkpointing_queue(&self, ck: u64) -> Vec<Digest> {
        self.att.store.checkpointing_queue_of(ck)
    }

    fn removal_queue(&self, ck: u64) -> Vec<Digest> {
        self.att.store.removal_queue_of(ck)
    }
}

/// Registers `a` with its stash, registers its key and lets an election make it active.
fn activate(ext: &mut Ext, a: &Attestor) {
    assert_eq!(ext.register_attestor(a.stash, SUPPORTED_CHAIN_KEY, a.attestor_id), Ok(()));
    assert_eq!(ext.attest(Origin::signed(a.attestor_id), SUPPORTED_CHAIN_KEY, a.public_key, &a.signature), Ok(()));
    ext.progress_to_block(5);
}

#[test]
fn set_min_bond_requirement_should_error_when_not_signed() {
    let mut ext = Ext::build();
    assert_eq!(ext.set_min_bond_requirement(Origin::none(), SUPPORTED_CHAIN_KEY, 200), Err(Error::BadOrigin));
}

#[test]
fn set_min_bond_requirement_should_error_when_not_signed_by_root() {
    let mut ext = Ext::build();
    assert_eq!(
        ext.set_min_bond_requirement(Origin::signed(ATTESTOR_1), SUPPORTED_CHAIN_KEY, 200),
        Err(Error::BadOrigin)
    );
}

#[test]
fn set_min_bond_requirement_should_update_storage_and_emit_event() {
    let mut ext = Ext::build();
    assert_eq!(ext.att.params_for(SUPPORTED_CHAIN_KEY).min_bond, 100_000_000_000_000_000_000);
    assert_eq!(ext.set_min_bond_requirement(Origin::root(), SUPPORTED_CHAIN_KEY, 200), Ok(()));
    assert_eq!(ext.att.params_for(SUPPORTED_CHAIN_KEY).min_bond, 200);
    assert_eq!(ext.last_event(), Some(Event::MinBondRequirementUpdated(SUPPORTED_CHAIN_KEY, 200)));
}

#[test]
fn set_max_attestors_should_update_storage_and_emit_event() {
    let mut ext = Ext::build();
    assert_eq!(ext.set_max_attestors(Origin::root(), SUPPORTED_CHAIN_KEY, 200), Ok(()));
    assert_eq!(ext.att.params_for(SUPPORTED_CHAIN_KEY).max_attestors, 200);
    assert_eq!(ext.last_event(), Some(Event::MaxAttestorsChanged(SUPPORTED_CHAIN_KEY, 200)));
}

#[test]
fn chill_should_error_when_not_signed() {
    let mut ext = Ext::build();
    assert_eq!(ext.chill(Origin::none(), SUPPORTED_CHAIN_KEY, ATTESTOR_1), Err(Error::BadOrigin));
}

#[test]
fn chill_should_error_when_not_signed_by_an_attestor() {
    let mut ext = Ext::build();
    assert_eq!(ext.chill(Origin::signed(STASH_1), SUPPORTED_CHAIN_KEY, ATTESTOR_1), Err(Error::AddressNotAttestor));
}

#[test]
fn chill_should_update_status_and_emit_event() {
    let mut ext = Ext::build();
    assert_eq!(ext.register_attestor(Origin::signed(STASH_1), SUPPORTED_CHAIN_KEY, ATTESTOR_1), Ok(()));
    assert_eq!(ext.chill(Origin::signed(STASH_1), SUPPORTED_CHAIN_KEY, ATTESTOR_1), Ok(()));
    assert_eq!(ext.attestor(SUPPORTED_CHAIN_KEY, ATTESTOR_1).unwrap().status, AttestorStatus::Idle);
    assert_eq!(ext.last_event(), Some(Event::AttestorChilled(SUPPORTED_CHAIN_KEY, ATTESTOR_1)));
}

#[test]
fn register_attestor_should_update_storage_and_emit_event() {
    let mut ext = Ext::build();
    let att = Attestor::new(STASH_1, ATTESTOR_1);
    assert_eq!(ext.register_attestor(att.stash, SUPPORTED_CHAIN_KEY, att.attestor_id), Ok(()));
    assert!(ext.attestor(SUPPORTED_CHAIN_KEY, ATTESTOR_1).is_some());
    assert!(ext.att.attestor_is_registered(SUPPORTED_CHAIN_KEY, ATTESTOR_1));
    assert_eq!(ext.last_event(), Some(Event::AttestorRegistered(SUPPORTED_CHAIN_KEY, ATTESTOR_1)));
}

#[test]
fn register_attestor_should_create_ledger_and_emit_event() {
    let mut ext = Ext::build();
    let att = Attestor::new(STASH_1, ATTESTOR_1);
    assert_eq!(ext.register_attestor(att.stash, SUPPORTED_CHAIN_KEY, att.attestor_id), Ok(()));
    assert!(ext.attestor(SUPPORTED_CHAIN_KEY, ATTESTOR_1).is_some());
    assert!(ext.att.attestor_is_registered(SUPPORTED_CHAIN_KEY, ATTESTOR_1));
    let attestor = ext.attestor(SUPPORTED_CHAIN_KEY, ATTESTOR_1).unwrap();
    assert_eq!(attestor.stash, STASH_1);
    assert_eq!(attestor.bls_public_key, None);
    assert_eq!(attestor.status, AttestorStatus::Idle);
    let min_bond_requirement = ext.att.params_for(SUPPORTED_CHAIN_KEY).min_bond;
    let ledger = ext.att.ledgers.get(&STASH_1);
    assert!(ledger.is_some());
    let ledger = ledger.unwrap();
    assert_eq!(ledger.stash, STASH_1);
    assert_eq!(ledger.total_staked, min_bond_requirement);
    assert_eq!(ext.last_event(), Some(Event::AttestorRegistered(SUPPORTED_CHAIN_KEY, ATTESTOR_1)));
}

#[test]
fn register_attestor_without_sufficient_funds_should_fail() {
    let mut ext = Ext::build();
    assert_eq!(
        ext.set_min_bond_requirement(Origin::root(), SUPPORTED_CHAIN_KEY, 10_000_000_000_000_000_000_000_000),
        Ok(())
    );
    let att = Attestor::new(STASH_3, ATTESTOR_1);
    let before = ext.events.len();
    assert_eq!(ext.register_attestor(att.stash, SUPPORTED_CHAIN_KEY, att.attestor_id), Err(Error::InsufficientBalance));
    assert_eq!(ext.events.len(), before);
    assert!(ext.attestor(SUPPORTED_CHAIN_KEY, ATTESTOR_1).is_none());
    assert_eq!(ext.get_locked_balance(STASH_3), 0);
}

#[test]
fn register_attestor_without_sufficient_funds_should_fail_2() {
    let mut ext = Ext::build();
    assert_eq!(ext.get_free_balance(STASH_3), 999_999_999_999_999_999_500);
    assert_eq!(ext.set_min_bond_requirement(Origin::root(), SUPPORTED_CHAIN_KEY, 600_000_000_000_000_000_000), Ok(()));
    let att = Attestor::new(STASH_3, ATTESTOR_1);
    assert_eq!(ext.register_attestor(att.stash, SUPPORTED_CHAIN_KEY, att.attestor_id), Ok(()));
    assert_eq!(ext.get_free_balance(STASH_3) + ONE_TENTH_CTC, 399_999_999_999_999_999_500);
    let att = Attestor::new(STASH_3, ATTESTOR_2);
    assert_eq!(ext.register_attestor(att.stash, SUPPORTED_CHAIN_KEY, att.attestor_id), Err(Error::InsufficientBalance));
}

#[test]
fn registering_multiple_attestor_increases_locked_balance() {
    let mut ext = Ext::build();
    let min_bond_requirement = ext.att.params_for(SUPPORTED_CHAIN_KEY).min_bond;
    let att = Attestor::new(STASH_3, ATTESTOR_1);
    assert_eq!(ext.register_attestor(att.stash, SUPPORTED_CHAIN_KEY, att.attestor_id), Ok(()));
    assert_eq!(ext.get_locked_balance(STASH_3), min_bond_requirement);
    let att = Attestor::new(STASH_3, ATTESTOR_2);
    assert_eq!(ext.register_attestor(att.stash, SUPPORTED_CHAIN_KEY, att.attestor_id), Ok(()));
    assert_eq!(ext.get_locked_balance(STASH_3), min_bond_requirement * 2);
    let att = Attestor::new(STASH_3, ATTESTOR_3);
    assert_eq!(ext.register_attestor(att.stash, SUPPORTED_CHAIN_KEY, att.attestor_id), Ok(()));
    assert_eq!(ext.get_locked_balance(STASH_3), min_bond_requirement * 3);
}

#[test]
fn registering_dergegistering_multiple_attestor_increases_decreases_locked_balance() {
    let mut ext = Ext::build();
    let min_bond_requirement = ext.att.params_for(SUPPORTED_CHAIN_KEY).min_bond;
    let att = Attestor::new(STASH_3, ATTESTOR_1);
    assert_eq!(ext.register_attestor(att.stash, SUPPORTED_CHAIN_KEY, att.attestor_id), Ok(()));
    assert_eq!(ext.get_locked_balance(STASH_3), min_bond_requirement);
    let att = Attestor::new(STASH_3, ATTESTOR_2);
    assert_eq!(ext.register_attestor(att.stash, SUPPORTED_CHAIN_KEY, att.attestor_id), Ok(()));
    assert_eq!(ext.get_locked_balance(STASH_3), min_bond_requirement * 2);
    assert_eq!(ext.unregister_attestor(att.stash, SUPPORTED_CHAIN_KEY, att.attestor_id), Ok(()));
    assert_eq!(ext.get_locked_balance(STASH_3), min_bond_requirement * 2);
    ext.progress_to_block(50);
    assert_eq!(ext.withdraw_unbonded(att.stash), Ok(()));
    assert_eq!(ext.get_locked_balance(STASH_3), min_bond_requirement);
}

#[test]
fn attestor_should_be_able_to_toggle_status() {
    let mut ext = Ext::build();
    let att = Attestor::new(STASH_1, ATTESTOR_1);
    assert_eq!(ext.register_attestor(att.stash, SUPPORTED_CHAIN_KEY, att.attestor_id), Ok(()));
    assert!(ext.attestor(SUPPORTED_CHAIN_KEY, ATTESTOR_1).is_some());
    assert!(ext.att.attestor_is_registered(SUPPORTED_CHAIN_KEY, ATTESTOR_1));
    let attestor = ext.attestor(SUPPORTED_CHAIN_KEY, ATTESTOR_1).unwrap();
    assert_eq!(attestor.stash, STASH_1);
    assert_eq!(attestor.bls_public_key, None);
    assert_eq!(attestor.status, AttestorStatus::Idle);
    assert_eq!(ext.attest(Origin::signed(att.attestor_id), SUPPORTED_CHAIN_KEY, att.public_key, &att.signature), Ok(()));
    let attestor = ext.attestor(SUPPORTED_CHAIN_KEY, ATTESTOR_1).unwrap();
    assert_eq!(attestor.bls_public_key, Some(att.public_key));
    assert_eq!(attestor.status, AttestorStatus::Waiting);
    assert_eq!(ext.chill(att.stash, SUPPORTED_CHAIN_KEY, att.attestor_id), Ok(()));
    let attestor = ext.attestor(SUPPORTED_CHAIN_KEY, ATTESTOR_1).unwrap();
    assert_eq!(attestor.status, AttestorStatus::Idle);
}

#[test]
fn attestor_should_be_elected_after_5_blocks_and_emit_event() {
    let mut ext = Ext::build();
    assert_eq!(ext.att.params_for(SUPPORTED_CHAIN_KEY).election_policy, AttestorElectionPolicy::OpenToAny);
    let att = Attestor::new(STASH_1, ATTESTOR_1);
    assert_eq!(ext.register_attestor(att.stash, SUPPORTED_CHAIN_KEY, att.attestor_id), Ok(()));
    let attestor = ext.attestor(SUPPORTED_CHAIN_KEY, ATTESTOR_1).unwrap();
    assert_eq!(attestor.stash, STASH_1);
    assert_eq!(attestor.bls_public_key, None);
    assert_eq!(attestor.status, AttestorStatus::Idle);
    assert_eq!(ext.attest(Origin::signed(att.attestor_id), SUPPORTED_CHAIN_KEY, att.public_key, &att.signature), Ok(()));
    ext.progress_to_block(5);
    assert!(ext.att.is_attestor(SUPPORTED_CHAIN_KEY, ATTESTOR_1));
    assert_eq!(ext.att.active_for(SUPPORTED_CHAIN_KEY), vec![ATTESTOR_1]);
    assert!(ext.has_event(Event::AttestorsElected { epoch: 1, chain_key: 1, attestors: vec![ATTESTOR_1] }));
}

#[test]
fn election_event_lists_the_elected_attestors_in_election_order() {
    let mut ext = Ext::build();
    let att1 = Attestor::new(STASH_1, ATTESTOR_1);
    let att2 = Attestor::new(STASH_2, ATTESTOR_2);
    assert_eq!(ext.register_attestor(att1.stash, SUPPORTED_CHAIN_KEY, att1.attestor_id), Ok(()));
    assert_eq!(ext.register_attestor(att2.stash, SUPPORTED_CHAIN_KEY, att2.attestor_id), Ok(()));
    assert_eq!(ext.attest(Origin::signed(att1.attestor_id), SUPPORTED_CHAIN_KEY, att1.public_key, &att1.signature), Ok(()));
    assert_eq!(ext.attest(Origin::signed(att2.attestor_id), SUPPORTED_CHAIN_KEY, att2.public_key, &att2.signature), Ok(()));
    ext.progress_to_block(5);
    assert!(ext.has_event(Event::AttestorsElected { epoch: 1, chain_key: 1, attestors: vec![ATTESTOR_1, ATTESTOR_2] }));
    assert_eq!(ext.att.active_for(SUPPORTED_CHAIN_KEY), vec![ATTESTOR_1, ATTESTOR_2]);
}

/// Under the authorized-only policy an attestor registers once authorized, and is
/// then elected.
#[test]
fn authorized_attestor_is_elected_under_the_authorized_only_policy() {
    let mut ext = Ext::build();
    assert_eq!(ext.att.params_for(SUPPORTED_CHAIN_KEY).election_policy, AttestorElectionPolicy::OpenToAny);
    assert_eq!(
        ext.set_election_policy(Origin::root(), SUPPORTED_CHAIN_KEY, AttestorElectionPolicy::AuthorizedOnly),
        Ok(())
    );
    let att = Attestor::new(STASH_1, ATTESTOR_1);
    assert_eq!(
        ext.register_attestor(att.stash, SUPPORTED_CHAIN_KEY, att.attestor_id),
        Err(Error::NotPreAuthorizedToRegister)
    );
    assert_eq!(ext.set_election_policy(Origin::root(), SUPPORTED_CHAIN_KEY, AttestorElectionPolicy::OpenToAny), Ok(()));
    assert_eq!(ext.register_attestor(att.stash, SUPPORTED_CHAIN_KEY, att.attestor_id), Ok(()));
    assert_eq!(ext.authorize_attestor(Origin::root(), SUPPORTED_CHAIN_KEY, ATTESTOR_1), Ok(()));
    assert_eq!(
        ext.set_election_policy(Origin::root(), SUPPORTED_CHAIN_KEY, AttestorElectionPolicy::AuthorizedOnly),
        Ok(())
    );
    assert_eq!(ext.attest(Origin::signed(att.attestor_id), SUPPORTED_CHAIN_KEY, att.public_key, &att.signature), Ok(()));
    ext.progress_to_block(5);
    assert!(ext.att.is_attestor(SUPPORTED_CHAIN_KEY, ATTESTOR_1));
    assert!(ext.has_event(Event::AttestorsElected { epoch: 1, chain_key: 1, attestors: vec![ATTESTOR_1] }));
}

#[test]
fn attestor_should_not_be_elected_after_5_blocks_if_not_signaling_start() {
    let mut ext = Ext::build();
    let att = Attestor::new(STASH_1, ATTESTOR_1);
    assert_eq!(ext.register_attestor(att.stash, SUPPORTED_CHAIN_KEY, att.attestor_id), Ok(()));
    let attestor = ext.attestor(SUPPORTED_CHAIN_KEY, ATTESTOR_1).unwrap();
    assert_eq!(attestor.stash, STASH_1);
    assert_eq!(attestor.bls_public_key, None);
    assert_eq!(attestor.status, AttestorStatus::Idle);
    ext.progress_to_block(5);
    assert!(!ext.att.is_attestor(SUPPORTED_CHAIN_KEY, ATTESTOR_1));
}

/// An attestor that is not authorized is not elected under the authorized-only policy.
#[test]
fn unauthorized_attestor_is_not_elected_under_the_authorized_only_policy() {
    let mut ext = Ext::build();
    let att = Attestor::new(STASH_1, ATTESTOR_1);
    assert_eq!(ext.register_attestor(att.stash, SUPPORTED_CHAIN_KEY, att.attestor_id), Ok(()));
    assert_eq!(
        ext.set_election_policy(Origin::root(), SUPPORTED_CHAIN_KEY, AttestorElectionPolicy::AuthorizedOnly),
        Ok(())
    );
    assert_eq!(ext.attest(Origin::signed(att.attestor_id), SUPPORTED_CHAIN_KEY, att.public_key, &att.signature), Ok(()));
    ext.progress_to_block(5);
    assert!(!ext.att.is_attestor(SUPPORTED_CHAIN_KEY, ATTESTOR_1));
    assert_eq!(ext.attestor(SUPPORTED_CHAIN_KEY, ATTESTOR_1).unwrap().status, AttestorStatus::Waiting);
}

#[test]
fn attestor_authorized_should_not_be_elected_after_5_blocks_for_deny_policy() {
    let mut ext = Ext::build();
    assert_eq!(ext.att.params_for(SUPPORTED_CHAIN_KEY).election_policy, AttestorElectionPolicy::OpenToAny);
    assert_eq!(
        ext.set_election_policy(Origin::root(), SUPPORTED_CHAIN_KEY, AttestorElectionPolicy::DeniedToAll),
        Ok(())
    );
    let att = Attestor::new(STASH_1, ATTESTOR_1);
    assert_eq!(ext.register_attestor(att.stash, SUPPORTED_CHAIN_KEY, att.attestor_id), Ok(()));
    let attestor = ext.attestor(SUPPORTED_CHAIN_KEY, ATTESTOR_1).unwrap();
    assert_eq!(attestor.stash, STASH_1);
    assert_eq!(attestor.bls_public_key, None);
    assert_eq!(attestor.status, AttestorStatus::Idle);
    assert_eq!(ext.attest(Origin::signed(att.attestor_id), SUPPORTED_CHAIN_KEY, att.public_key, &att.signature), Ok(()));
    assert_eq!(ext.authorize_attestor(Origin::root(), SUPPORTED_CHAIN_KEY, ATTESTOR_1), Ok(()));
    ext.progress_to_block(5);
    assert!(!ext.att.is_attestor(SUPPORTED_CHAIN_KEY, ATTESTOR_1));
}

#[test]
fn stash_ledger_schould_increase_when_registering_multiple_attestors() {
    let mut ext = Ext::build();
    let min_bond_requirement = ext.att.params_for(SUPPORTED_CHAIN_KEY).min_bond;
    let att = Attestor::new(STASH_1, ATTESTOR_1);
    assert_eq!(ext.register_attestor(att.stash, SUPPORTED_CHAIN_KEY, att.attestor_id), Ok(()));
    let ledger = ext.att.ledgers.get(&STASH_1).unwrap();
    assert_eq!(ledger.stash, STASH_1);
    assert_eq!(ledger.total_staked, min_bond_requirement);
    let att = Attestor::new(STASH_1, ATTESTOR_2);
    assert_eq!(ext.register_attestor(att.stash, SUPPORTED_CHAIN_KEY, att.attestor_id), Ok(()));
    let ledger = ext.att.ledgers.get(&STASH_1).unwrap();
    assert_eq!(ledger.stash, STASH_1);
    assert_eq!(ledger.total_staked, min_bond_requirement * 2);
    // The whole bond sits in the pool.
    assert_eq!(ext.balance(BOND_POOL), min_bond_requirement * 2);
}

#[test]
fn register_attestor_should_error_when_not_signed() {
    let mut ext = Ext::build();
    let att = Attestor::new(STASH_1, ATTESTOR_1);
    assert_eq!(ext.register_attestor(Origin::none(), SUPPORTED_CHAIN_KEY, att.attestor_id), Err(Error::BadOrigin));
}

#[test]
fn register_attestor_should_error_when_chain_is_not_supported() {
    let mut ext = Ext::build();
    let att = Attestor::new(STASH_1, ATTESTOR_1);
    assert_eq!(ext.register_attestor(att.stash, 0, att.attestor_id), Err(Error::ChainNotSupported));
}

#[test]
fn register_attestor_should_error_when_address_is_already_registered() {
    let mut ext = Ext::build();
    let att = Attestor::new(STASH_1, ATTESTOR_1);
    assert_eq!(ext.register_attestor(att.stash, SUPPORTED_CHAIN_KEY, att.attestor_id), Ok(()));
    assert_eq!(ext.register_attestor(att.stash, SUPPORTED_CHAIN_KEY, att.attestor_id), Err(Error::AlreadyAttestor));
}

#[test]
fn register_attestor_should_error_when_list_is_full() {
    let mut ext = Ext::build();
    let att_1 = Attestor::new(STASH_1, ATTESTOR_1);
    let att_2 = Attestor::new(STASH_2, ATTESTOR_2);
    assert_eq!(ext.set_max_attestors(Origin::root(), SUPPORTED_CHAIN_KEY, 1), Ok(()));
    assert_eq!(ext.register_attestor(att_1.stash, SUPPORTED_CHAIN_KEY, att_1.attestor_id), Ok(()));
    assert_eq!(
        ext.register_attestor(att_2.stash, SUPPORTED_CHAIN_KEY, att_2.attestor_id),
        Err(Error::AttestorListFull)
    );
}

#[test]
fn attest_should_error_when_not_signed() {
    let mut ext = Ext::build();
    let key = key_from_bytes(b"000000000000000000000000000000000000000000000000");
    let proof = b"000000000000000000000000000000000000000000000000000000000000000000000000000000000000000000000000";
    assert_eq!(ext.attest(Origin::none(), SUPPORTED_CHAIN_KEY, key, proof), Err(Error::BadOrigin));
}

#[test]
fn attest_should_error_when_signer_not_registered_as_attestor() {
    let mut ext = Ext::build();
    let att1 = Attestor::new(STASH_1, ATTESTOR_1);
    assert_eq!(
        ext.attest(Origin::signed(att1.attestor_id), SUPPORTED_CHAIN_KEY, att1.public_key, &att1.signature),
        Err(Error::AddressNotAttestor)
    );
}

#[test]
fn attest_should_error_when_public_key_is_invalid() {
    let mut ext = Ext::build();
    let att = Attestor::new(STASH_1, ATTESTOR_1);
    assert_eq!(ext.register_attestor(att.stash, SUPPORTED_CHAIN_KEY, att.attestor_id), Ok(()));
    let key = key_from_bytes(b"000000000000000000000000000000000000000000000000");
    assert_eq!(
        ext.attest(Origin::signed(att.attestor_id), SUPPORTED_CHAIN_KEY, key, &att.signature),
        Err(Error::InvalidBlsPublicKey)
    );
}

#[test]
fn attest_should_error_when_signature_is_invalid() {
    let mut ext = Ext::build();
    let att = Attestor::new(STASH_1, ATTESTOR_1);
    assert_eq!(ext.register_attestor(att.stash, SUPPORTED_CHAIN_KEY, att.attestor_id), Ok(()));
    let proof = b"000000000000000000000000000000000000000000000000000000000000000000000000000000000000000000000000";
    assert_eq!(
        ext.attest(Origin::signed(att.attestor_id), SUPPORTED_CHAIN_KEY, att.public_key, proof),
        Err(Error::InvalidBlsSignature)
    );
}

#[test]
fn attest_should_error_when_signature_doesnt_validate_against_public_key() {
    let mut ext = Ext::build();
    let att1 = Attestor::new(STASH_1, ATTESTOR_1);
    let att2 = Attestor::new(STASH_2, ATTESTOR_2);
    assert_eq!(ext.register_attestor(att1.stash, SUPPORTED_CHAIN_KEY, att1.attestor_id), Ok(()));
    assert_eq!(
        ext.attest(Origin::signed(att1.attestor_id), SUPPORTED_CHAIN_KEY, att1.public_key, &att2.signature),
        Err(Error::InvalidProofOfPossession)
    );
}

#[test]
fn attest_should_update_storage_and_emit_event() {
    let mut ext = Ext::build();
    let att1 = Attestor::new(STASH_1, ATTESTOR_1);
    assert_eq!(ext.register_attestor(att1.stash, SUPPORTED_CHAIN_KEY, att1.attestor_id), Ok(()));
    assert_eq!(ext.attestor(SUPPORTED_CHAIN_KEY, ATTESTOR_1).unwrap().status, AttestorStatus::Idle);
    assert_eq!(
        ext.attest(Origin::signed(att1.attestor_id), SUPPORTED_CHAIN_KEY, att1.public_key, &att1.signature),
        Ok(())
    );
    let attestor = ext.attestor(SUPPORTED_CHAIN_KEY, ATTESTOR_1).unwrap();
    assert_eq!(attestor.status, AttestorStatus::Waiting);
    assert_eq!(attestor.bls_public_key, Some(att1.public_key));
    assert_eq!(
        ext.last_event(),
        Some(Event::AttestorActivated(SUPPORTED_CHAIN_KEY, att1.attestor_id, att1.public_key))
    );
}

#[test]
fn max_attestor_default_should_be_100() {
    let ext = Ext::build();
    assert_eq!(ext.att.params_for(SUPPORTED_CHAIN_KEY).max_attestors, 100);
}

#[test]
fn max_invulnerable_default_should_be_100() {
    let ext = Ext::build();
    assert_eq!(ext.att.params_for(SUPPORTED_CHAIN_KEY).max_invulnerables, 100);
}

#[test]
fn set_max_invulnerables_should_error_when_not_signed() {
    let mut ext = Ext::build();
    assert_eq!(ext.set_max_invulnerables(Origin::none(), SUPPORTED_CHAIN_KEY, 200), Err(Error::BadOrigin));
}

#[test]
fn set_max_invulnerables_should_error_when_not_signed_by_root() {
    let mut ext = Ext::build();
    assert_eq!(ext.set_max_invulnerables(Origin::signed(ATTESTOR_1), SUPPORTED_CHAIN_KEY, 200), Err(Error::BadOrigin));
}

#[test]
fn set_max_invulnerables_should_error_when_value_is_less_than_current_count() {
    let mut ext = Ext::build();
    assert_eq!(
        ext.set_max_invulnerables(Origin::root(), SUPPORTED_CHAIN_KEY, 0),
        Err(Error::MaxInvulnerablesCannotBeChanged)
    );
}

#[test]
fn set_max_invulnerables_should_update_storage() {
    let mut ext = Ext::build();
    assert_eq!(ext.att.params_for(SUPPORTED_CHAIN_KEY).max_invulnerables, 100);
    assert_eq!(ext.invulnerable_count(SUPPORTED_CHAIN_KEY), 1);
    assert_eq!(ext.set_max_invulnerables(Origin::root(), SUPPORTED_CHAIN_KEY, 10), Ok(()));
    assert_eq!(ext.att.params_for(SUPPORTED_CHAIN_KEY).max_invulnerables, 10);
    assert_eq!(ext.invulnerable_count(SUPPORTED_CHAIN_KEY), 1);
}

#[test]
fn set_max_attestors_should_error_when_not_signed() {
    let mut ext = Ext::build();
    assert_eq!(ext.set_max_attestors(Origin::none(), SUPPORTED_CHAIN_KEY, 1), Err(Error::BadOrigin));
}

#[test]
fn set_max_attestors_should_error_with_non_root_origin() {
    let mut ext = Ext::build();
    assert_eq!(ext.set_max_attestors(Origin::signed(ATTESTOR_1), SUPPORTED_CHAIN_KEY, 1), Err(Error::BadOrigin));
}

#[test]
fn set_max_attestors_should_work_when_truncating_existing_list() {
    let mut ext = Ext::build();
    let att_1 = Attestor::new(STASH_1, ATTESTOR_1);
    let att_2 = Attestor::new(STASH_2, ATTESTOR_2);
    assert_eq!(ext.register_attestor(att_1.stash, SUPPORTED_CHAIN_KEY, att_1.attestor_id), Ok(()));
    assert_eq!(ext.register_attestor(att_2.stash, SUPPORTED_CHAIN_KEY, att_2.attestor_id), Ok(()));
    assert_eq!(ext.attestors_of_chain(SUPPORTED_CHAIN_KEY), 2);
    assert_eq!(ext.set_max_attestors(Origin::root(), SUPPORTED_CHAIN_KEY, 1), Ok(()));
    assert_eq!(ext.attestors_of_chain(SUPPORTED_CHAIN_KEY), 2);
    assert_eq!(ext.att.params_for(SUPPORTED_CHAIN_KEY).max_attestors, 1);
}

#[test]
fn set_max_attestors_should_work_when_list_is_empty() {
    let mut ext = Ext::build();
    ext.att.attestors.clear();
    assert_eq!(ext.attestors_of_chain(SUPPORTED_CHAIN_KEY), 0);
    assert_eq!(ext.set_max_attestors(Origin::root(), SUPPORTED_CHAIN_KEY, 5), Ok(()));
    assert_eq!(ext.att.params_for(SUPPORTED_CHAIN_KEY).max_attestors, 5);
}

#[test]
fn set_max_attestors_should_work_when_expanding_existing_list() {
    let mut ext = Ext::build();
    let att_1 = Attestor::new(STASH_1, ATTESTOR_1);
    let att_2 = Attestor::new(STASH_2, ATTESTOR_2);
    assert_eq!(ext.register_attestor(att_1.stash, SUPPORTED_CHAIN_KEY, att_1.attestor_id), Ok(()));
    assert_eq!(ext.register_attestor(att_2.stash, SUPPORTED_CHAIN_KEY, att_2.attestor_id), Ok(()));
    assert_eq!(ext.attestors_of_chain(SUPPORTED_CHAIN_KEY), 2);
    assert_eq!(ext.att.params_for(SUPPORTED_CHAIN_KEY).max_attestors, 100);
    assert_eq!(ext.set_max_attestors(Origin::root(), SUPPORTED_CHAIN_KEY, 10), Ok(()));
    assert_eq!(ext.att.params_for(SUPPORTED_CHAIN_KEY).max_attestors, 10);
}

#[test]
fn unregister_attestor_should_error_when_not_signed() {
    let mut ext = Ext::build();
    assert_eq!(ext.unregister_attestor(Origin::none(), SUPPORTED_CHAIN_KEY, ATTESTOR_1), Err(Error::BadOrigin));
}

#[test]
fn unregister_attestor_should_error_when_address_is_not_registered_as_attestor() {
    let mut ext = Ext::build();
    assert_eq!(
        ext.unregister_attestor(Origin::signed(ATTESTOR_1), SUPPORTED_CHAIN_KEY, ATTESTOR_1),
        Err(Error::AddressNotAttestor)
    );
}

#[test]
fn unregister_attestor_should_update_storage_and_emit_an_event() {
    let mut ext = Ext::build();
    let att = Attestor::new(STASH_1, ATTESTOR_1);
    assert_eq!(ext.register_attestor(att.stash, SUPPORTED_CHAIN_KEY, att.attestor_id), Ok(()));
    assert!(ext.att.attestor_is_registered(SUPPORTED_CHAIN_KEY, ATTESTOR_1));
    assert_eq!(ext.unregister_attestor(att.stash, SUPPORTED_CHAIN_KEY, ATTESTOR_1), Ok(()));
    assert!(ext.attestor(SUPPORTED_CHAIN_KEY, ATTESTOR_1).is_none());
    assert_eq!(ext.last_event(), Some(Event::AttestorUnregistered(SUPPORTED_CHAIN_KEY, ATTESTOR_1)));
}

#[test]
fn unregister_invulnerable_should_update_storage_and_emit_event() {
    let mut ext = Ext::build();
    assert!(!ext.is_invulnerable(SUPPORTED_CHAIN_KEY, ATTESTOR_1));
    let att = Attestor::new(STASH_1, ATTESTOR_1);
    assert_eq!(ext.register_invulnerable(Origin::root(), SUPPORTED_CHAIN_KEY, att.attestor_id), Ok(()));
    assert!(ext.is_invulnerable(SUPPORTED_CHAIN_KEY, ATTESTOR_1));
    assert_eq!(ext.unregister_invulnerable(Origin::root(), SUPPORTED_CHAIN_KEY, ATTESTOR_1), Ok(()));
    assert!(!ext.is_invulnerable(SUPPORTED_CHAIN_KEY, ATTESTOR_1));
    assert_eq!(ext.last_event(), Some(Event::InvulnerableUnregistered(SUPPORTED_CHAIN_KEY, ATTESTOR_1)));
}

#[test]
fn unregister_invulnerable_should_error_when_not_signed() {
    let mut ext = Ext::build();
    assert_eq!(ext.unregister_invulnerable(Origin::none(), SUPPORTED_CHAIN_KEY, ATTESTOR_1), Err(Error::BadOrigin));
}

#[test]
fn unregister_invulnerable_should_error_when_not_signed_by_root() {
    let mut ext = Ext::build();
    assert_eq!(
        ext.unregister_invulnerable(Origin::signed(ATTESTOR_1), SUPPORTED_CHAIN_KEY, ATTESTOR_1),
        Err(Error::BadOrigin)
    );
}

#[test]
fn unregister_invulnerable_should_fail_when_address_is_not_registered_at_all() {
    let mut ext = Ext::build();
    assert!(ext.attestor(SUPPORTED_CHAIN_KEY, ATTESTOR_1).is_none());
    assert!(!ext.is_invulnerable(SUPPORTED_CHAIN_KEY, ATTESTOR_1));
    assert_eq!(
        ext.unregister_invulnerable(Origin::root(), SUPPORTED_CHAIN_KEY, ATTESTOR_1),
        Err(Error::AddressIsNotInvulnerable)
    );
}

#[test]
fn unregister_invulnerable_should_fail_when_address_is_an_attestor_but_not_invulnerable() {
    let mut ext = Ext::build();
    let att = Attestor::new(STASH_1, ATTESTOR_1);
    assert_eq!(ext.register_attestor(att.stash, SUPPORTED_CHAIN_KEY, att.attestor_id), Ok(()));
    assert!(ext.attestor(SUPPORTED_CHAIN_KEY, ATTESTOR_1).is_some());
    assert!(!ext.is_invulnerable(SUPPORTED_CHAIN_KEY, ATTESTOR_1));
    assert_eq!(
        ext.unregister_invulnerable(Origin::root(), SUPPORTED_CHAIN_KEY, ATTESTOR_1),
        Err(Error::AddressIsNotInvulnerable)
    );
}

#[test]
fn set_target_sample_size_should_error_when_not_signed() {
    let mut ext = Ext::build();
    assert_eq!(ext.set_target_sample_size(Origin::none(), SUPPORTED_CHAIN_KEY, 512), Err(Error::BadOrigin));
}

#[test]
fn set_target_sample_size_should_error_when_not_signed_by_root() {
    let mut ext = Ext::build();
    assert_eq!(ext.set_target_sample_size(Origin::signed(ATTESTOR_1), SUPPORTED_CHAIN_KEY, 512), Err(Error::BadOrigin));
}

#[test]
fn set_target_sample_size_should_fail_with_set_size_less_than_1() {
    let mut ext = Ext::build();
    assert_eq!(
        ext.set_target_sample_size(Origin::root(), SUPPORTED_CHAIN_KEY, 0),
        Err(Error::InvalidTargetSampleSize)
    );
}

#[test]
fn set_target_sample_size_should_update_storage_and_emit_an_event() {
    let mut ext = Ext::build();
    assert_eq!(ext.att.params_for(SUPPORTED_CHAIN_KEY).target_sample_size, DEFAULT_TARGET_SAMPLE_SIZE);
    assert_eq!(ext.set_target_sample_size(Origin::root(), SUPPORTED_CHAIN_KEY, 512), Ok(()));
    assert_eq!(ext.att.pending_sample_sizes.get(&SUPPORTED_CHAIN_KEY).copied(), Some(512));
    assert_eq!(ext.last_event(), Some(Event::PendingTargetSampleSizeSet(SUPPORTED_CHAIN_KEY, 512)));
}

#[test]
fn register_invulnerable_should_error_when_not_signed() {
    let mut ext = Ext::build();
    let att = Attestor::new(STASH_1, ATTESTOR_1);
    assert_eq!(ext.register_invulnerable(Origin::none(), SUPPORTED_CHAIN_KEY, att.attestor_id), Err(Error::BadOrigin));
}

#[test]
fn register_invulnerable_should_error_when_not_signed_by_root() {
    let mut ext = Ext::build();
    let att = Attestor::new(STASH_1, ATTESTOR_1);
    assert_eq!(
        ext.register_invulnerable(Origin::signed(ATTESTOR_1), SUPPORTED_CHAIN_KEY, att.attestor_id),
        Err(Error::BadOrigin)
    );
}

#[test]
fn register_invulnerable_adds_attestor_and_invulnerable_and_emits_events() {
    let mut ext = Ext::build();
    assert!(!ext.is_invulnerable(SUPPORTED_CHAIN_KEY, ATTESTOR_1));
    assert_eq!(ext.register_invulnerable(Origin::root(), SUPPORTED_CHAIN_KEY, ATTESTOR_1), Ok(()));
    assert!(ext.is_invulnerable(SUPPORTED_CHAIN_KEY, ATTESTOR_1));
    assert_eq!(ext.last_event(), Some(Event::InvulnerableRegistered(SUPPORTED_CHAIN_KEY, ATTESTOR_1)));
}

#[test]
fn remove_invulnerable_works() {
    let mut ext = Ext::build();
    assert_eq!(ext.register_invulnerable(Origin::root(), SUPPORTED_CHAIN_KEY, ATTESTOR_1), Ok(()));
    assert!(ext.is_invulnerable(SUPPORTED_CHAIN_KEY, ATTESTOR_1));
    assert_eq!(ext.unregister_invulnerable(Origin::root(), SUPPORTED_CHAIN_KEY, ATTESTOR_1), Ok(()));
}

#[test]
fn set_chain_attestation_interval_should_error_when_not_signed() {
    let mut ext = Ext::build();
    assert_eq!(ext.set_chain_attestation_interval(Origin::none(), SUPPORTED_CHAIN_KEY, 101), Err(Error::BadOrigin));
}

#[test]
fn set_chain_attestation_interval_should_error_when_not_signed_by_root() {
    let mut ext = Ext::build();
    assert_eq!(ext.set_chain_attestation_interval(Origin::signed(4), SUPPORTED_CHAIN_KEY, 101), Err(Error::BadOrigin));
}

#[test]
fn set_chain_attestation_interval_should_error_with_interval_0() {
    let mut ext = Ext::build();
    assert_eq!(
        ext.set_chain_attestation_interval(Origin::root(), SUPPORTED_CHAIN_KEY, 0),
        Err(Error::InvalidAttestationInterval)
    );
}

#[test]
fn set_chain_attestation_interval_should_error_for_unsupported_chain() {
    let mut ext = Ext::build();
    assert_eq!(ext.set_chain_attestation_interval(Origin::root(), 2, 101), Err(Error::ChainNotSupported));
}

#[test]
fn set_chain_attestation_interval_updates_internal_storage_and_emits_event() {
    let mut ext = Ext::build();
    assert_eq!(ext.att.pending_intervals.get(&SUPPORTED_CHAIN_KEY).copied(), None);
    assert_eq!(ext.set_chain_attestation_interval(Origin::root(), SUPPORTED_CHAIN_KEY, 101), Ok(()));
    assert_eq!(ext.att.pending_intervals.get(&SUPPORTED_CHAIN_KEY).copied(), Some(101));
    assert_eq!(ext.last_event(), Some(Event::PendingAttestationIntervalSet(SUPPORTED_CHAIN_KEY, 101)));
}

#[test]
fn on_new_epoch_randomness_updates_attestation_interval_with_pending_value_and_emits_event() {
    let mut ext = Ext::build();
    assert_eq!(BLOCKS_PER_EPOCH, 3);
    assert_eq!(Ext::epoch_of(ext.block), 0);
    assert_eq!(ext.set_chain_attestation_interval(Origin::root(), SUPPORTED_CHAIN_KEY, 101), Ok(()));
    assert_eq!(ext.att.pending_intervals.get(&SUPPORTED_CHAIN_KEY).copied(), Some(101));
    ext.progress_to_block(4);
    assert_eq!(ext.att.params_for(SUPPORTED_CHAIN_KEY).attestation_interval, 101);
    assert_eq!(ext.att.pending_intervals.get(&SUPPORTED_CHAIN_KEY).copied(), None);
    assert!(ext.has_event(Event::AttestationIntervalChanged(1, 101)));
}

#[test]
fn on_new_epoch_randomness_updates_target_sample_size_with_pending_value_and_emits_event() {
    let mut ext = Ext::build();
    assert_eq!(BLOCKS_PER_EPOCH, 3);
    assert_eq!(Ext::epoch_of(ext.block), 0);
    assert_eq!(ext.set_target_sample_size(Origin::root(), SUPPORTED_CHAIN_KEY, 512), Ok(()));
    assert_eq!(ext.att.pending_sample_sizes.get(&SUPPORTED_CHAIN_KEY).copied(), Some(512));
    ext.progress_to_block(4);
    assert_eq!(ext.att.params_for(SUPPORTED_CHAIN_KEY).target_sample_size, 512);
    assert_eq!(ext.att.pending_intervals.get(&SUPPORTED_CHAIN_KEY).copied(), None);
    assert!(ext.has_event(Event::TargetSampleSizeChanged(1, 512)));
}

#[test]
fn set_attestations_per_checkpoint_should_update_storage() {
    let mut ext = Ext::build();
    assert_eq!(ext.att.params_for(SUPPORTED_CHAIN_KEY).checkpoint_interval, 10);
    assert_eq!(ext.set_attestations_per_checkpoint(Origin::root(), SUPPORTED_CHAIN_KEY, 101), Ok(()));
    assert_eq!(ext.att.params_for(SUPPORTED_CHAIN_KEY).checkpoint_interval, 101);
}

#[test]
fn set_attestations_per_checkpoint_should_error_when_not_signed() {
    let mut ext = Ext::build();
    assert_eq!(ext.set_attestations_per_checkpoint(Origin::none(), 2, 101), Err(Error::BadOrigin));
}

#[test]
fn set_attestations_per_checkpoint_should_error_when_not_signed_by_root() {
    let mut ext = Ext::build();
    assert_eq!(
        ext.set_attestations_per_checkpoint(Origin::signed(ATTESTOR_1), SUPPORTED_CHAIN_KEY, 101),
        Err(Error::BadOrigin)
    );
}

#[test]
fn set_attestations_per_checkpoint_should_error_with_invalid_interval_value() {
    let mut ext = Ext::build();
    assert_eq!(
        ext.set_attestations_per_checkpoint(Origin::root(), SUPPORTED_CHAIN_KEY, 0),
        Err(Error::InvalidAttestationsPerCheckpoint)
    );
}

#[test]
fn set_attestations_per_checkpoint_should_error_on_unsupported_chain() {
    let mut ext = Ext::build();
    assert_eq!(ext.set_attestations_per_checkpoint(Origin::root(), 2, 101), Err(Error::ChainNotSupported));
}

#[test]
fn bootstrap_chain_should_error_when_not_signed() {
    let mut ext = Ext::build();
    let attestor = Attestor::new(STASH_1, ATTESTOR_1);
    let attestation = create_signed_attestation(&mut ext, &[attestor], SUPPORTED_CHAIN_KEY, 1, None, None);
    assert_eq!(ext.bootstrap_chain(Origin::none(), &attestation), Err(Error::BadOrigin));
}

#[test]
fn bootstrap_chain_should_error_when_not_signed_by_root() {
    let mut ext = Ext::build();
    let attestor = Attestor::new(STASH_1, ATTESTOR_1);
    let attestation = create_signed_attestation(&mut ext, &[attestor], SUPPORTED_CHAIN_KEY, 1, None, None);
    assert_eq!(ext.bootstrap_chain(Origin::signed(ATTESTOR_1), &attestation), Err(Error::BadOrigin));
}

#[test]
fn bootstrap_chain_should_error_when_chain_is_unsupported() {
    let mut ext = Ext::build();
    let attestor = Attestor::new(STASH_1, ATTESTOR_1);
    let attestation = create_signed_attestation(&mut ext, &[attestor], 2, 1, None, None);
    assert_eq!(ext.bootstrap_chain(Origin::root(), &attestation), Err(Error::ChainNotSupported));
}

#[test]
fn bootstrap_chain_should_update_storage_and_emit_event() {
    let mut ext = Ext::build();
    let attestor = Attestor::new(STASH_1, ATTESTOR_1);
    let attestation = create_signed_attestation(&mut ext, &[attestor.clone()], SUPPORTED_CHAIN_KEY, 0, None, None);
    let attestation_for_block_10 =
        create_signed_attestation(&mut ext, &[attestor], SUPPORTED_CHAIN_KEY, 10, None, None);
    let expected_checkpoint =
        AttestationCheckpoint { block_number: attestation.header_number(), digest: attestation.digest() };
    assert_eq!(ext.last_attestation_digest(SUPPORTED_CHAIN_KEY), None);
    assert!(ext.stored(SUPPORTED_CHAIN_KEY, attestation.digest()).is_none());
    assert_eq!(ext.checkpointing_queue(SUPPORTED_CHAIN_KEY).len(), 0);
    assert_eq!(ext.last_checkpoint(SUPPORTED_CHAIN_KEY), None);

    assert_eq!(ext.bootstrap_chain(Origin::root(), &attestation), Ok(()));
    assert_eq!(
        ext.last_attestation_digest(SUPPORTED_CHAIN_KEY),
        Some((attestation.header_number(), attestation.digest()))
    );
    assert!(ext.stored(SUPPORTED_CHAIN_KEY, attestation_for_block_10.digest()).is_none());
    assert_eq!(ext.checkpointing_queue(SUPPORTED_CHAIN_KEY).len(), 0);
    assert_eq!(ext.last_event(), Some(Event::CheckpointReached(SUPPORTED_CHAIN_KEY, expected_checkpoint)));
    assert_eq!(ext.last_checkpoint(SUPPORTED_CHAIN_KEY), Some(expected_checkpoint));

    assert_eq!(ext.bootstrap_chain(Origin::root(), &attestation_for_block_10), Ok(()));
    assert_eq!(
        ext.last_attestation_digest(SUPPORTED_CHAIN_KEY),
        Some((attestation_for_block_10.header_number(), attestation_for_block_10.digest()))
    );
    assert!(attestation_for_block_10.same_as(ext.stored(SUPPORTED_CHAIN_KEY, attestation_for_block_10.digest()).unwrap()));
    assert_eq!(ext.checkpointing_queue(SUPPORTED_CHAIN_KEY).len(), 1);
    assert_eq!(
        ext.last_event(),
        Some(Event::BlockAttested(
            SUPPORTED_CHAIN_KEY,
            attestation_for_block_10.header_number(),
            attestation_for_block_10.digest()
        ))
    );
    assert_eq!(ext.last_checkpoint(SUPPORTED_CHAIN_KEY), Some(expected_checkpoint));
}

// The attestations below are committed by the active attestor itself: only members of
// the active set may commit.

#[test]
fn commit_attestation_interval_10_works() {
    let mut ext = Ext::build();
    let attestor = Attestor::new(STASH_1, ATTESTOR_1);
    let signer = Origin::signed(attestor.attestor_id);
    assert_eq!(ext.checkpointing_queue(SUPPORTED_CHAIN_KEY).len(), 0);
    assert_eq!(ext.last_checkpoint(SUPPORTED_CHAIN_KEY), None);
    activate(&mut ext, &attestor);
    let attestation_1 = create_signed_attestation(&mut ext, &[attestor.clone()], SUPPORTED_CHAIN_KEY, 0, None, None);
    assert_eq!(ext.commit_attestation(signer, &attestation_1), Ok(()));
    let expected_checkpoint =
        AttestationCheckpoint { block_number: attestation_1.header_number(), digest: attestation_1.digest() };
    assert_eq!(ext.checkpoint(SUPPORTED_CHAIN_KEY, expected_checkpoint.block_number), Some(expected_checkpoint.digest));
    assert_eq!(ext.last_checkpoint(SUPPORTED_CHAIN_KEY), Some(expected_checkpoint));
    let attestation = create_signed_attestation(
        &mut ext,
        &[attestor.clone()],
        SUPPORTED_CHAIN_KEY,
        10,
        Some(attestation_1.digest()),
        None,
    );
    assert_eq!(ext.commit_attestation(signer, &attestation), Ok(()));
    assert!(attestation.same_as(ext.stored(SUPPORTED_CHAIN_KEY, attestation.digest()).unwrap()));
}

#[test]
fn commit_attestation_interval_1_works() {
    let mut ext = Ext::build();
    let attestor = Attestor::new(STASH_1, ATTESTOR_1);
    let signer = Origin::signed(attestor.attestor_id);
    assert_eq!(ext.checkpointing_queue(SUPPORTED_CHAIN_KEY).len(), 0);
    assert_eq!(ext.last_checkpoint(SUPPORTED_CHAIN_KEY), None);
    activate(&mut ext, &attestor);
    let attestation_1 = create_signed_attestation(&mut ext, &[attestor.clone()], SUPPORTED_CHAIN_KEY, 0, None, None);
    assert_eq!(ext.commit_attestation(signer, &attestation_1), Ok(()));
    let expected_checkpoint =
        AttestationCheckpoint { block_number: attestation_1.header_number(), digest: attestation_1.digest() };
    assert_eq!(ext.checkpoint(SUPPORTED_CHAIN_KEY, expected_checkpoint.block_number), Some(expected_checkpoint.digest));
    assert_eq!(ext.last_checkpoint(SUPPORTED_CHAIN_KEY), Some(expected_checkpoint));
    let data = AttestationData {
        chain_key: SUPPORTED_CHAIN_KEY,
        header_number: 1,
        header_hash: ext.random_hash(),
        prev_digest: Some(attestation_1.digest()),
    };
    let attestation = bls_sign_attestation(&[attestor.clone()], data, &Fragment::empty());
    assert_eq!(ext.commit_attestation(signer, &attestation), Ok(()));
    assert!(attestation.same_as(ext.stored(SUPPORTED_CHAIN_KEY, attestation.digest()).unwrap()));
}

#[test]
fn commit_attestation_interval_1_fails_with_wrong_prev_digest() {
    let mut ext = Ext::build();
    let attestor = Attestor::new(STASH_1, ATTESTOR_1);
    let signer = Origin::signed(attestor.attestor_id);
    activate(&mut ext, &attestor);
    let attestation_1 = create_signed_attestation(&mut ext, &[attestor.clone()], SUPPORTED_CHAIN_KEY, 0, None, None);
    assert_eq!(ext.commit_attestation(signer, &attestation_1), Ok(()));
    let expected_checkpoint =
        AttestationCheckpoint { block_number: attestation_1.header_number(), digest: attestation_1.digest() };
    assert_eq!(ext.last_checkpoint(SUPPORTED_CHAIN_KEY), Some(expected_checkpoint));
    let wrong = ext.random_hash();
    let data = AttestationData {
        chain_key: SUPPORTED_CHAIN_KEY,
        header_number: 1,
        header_hash: ext.random_hash(),
        prev_digest: Some(wrong),
    };
    let attestation = bls_sign_attestation(&[attestor.clone()], data, &Fragment::empty());
    assert_eq!(ext.commit_attestation(signer, &attestation), Err(Error::EmptyContinuityProof));
}

#[test]
fn commit_attestation_should_error_on_invalid_attestation_header() {
    let mut ext = Ext::build();
    let attestor = Attestor::new(STASH_1, ATTESTOR_1);
    let signer = Origin::signed(attestor.attestor_id);
    activate(&mut ext, &attestor);
    let random = ext.random_hash();
    let attestation_1 =
        create_signed_attestation(&mut ext, &[attestor.clone()], SUPPORTED_CHAIN_KEY, 10, Some(random), None);
    assert_eq!(ext.commit_attestation(signer, &attestation_1), Err(Error::NoFinalizedAttestation));
}

#[test]
fn commit_attestation_should_error_on_invalid_continuity_proof_tail() {
    let mut ext = Ext::build();
    let attestor = Attestor::new(STASH_1, ATTESTOR_1);
    let signer = Origin::signed(attestor.attestor_id);
    activate(&mut ext, &attestor);
    let attestation_1 = create_signed_attestation(&mut ext, &[attestor.clone()], SUPPORTED_CHAIN_KEY, 0, None, None);
    assert_eq!(ext.commit_attestation(signer, &attestation_1), Ok(()));
    let attestation_2 = create_signed_attestation(&mut ext, &[attestor.clone()], SUPPORTED_CHAIN_KEY, 10, None, None);
    assert_eq!(ext.commit_attestation(signer, &attestation_2), Err(Error::InvalidAttestationContinuityProofTail));
}

#[test]
fn commit_attestation_should_error_on_invalid_prev_digest() {
    let mut ext = Ext::build();
    let attestor = Attestor::new(STASH_1, ATTESTOR_1);
    let signer = Origin::signed(attestor.attestor_id);
    activate(&mut ext, &attestor);
    let attestation_1 = create_signed_attestation(&mut ext, &[attestor.clone()], SUPPORTED_CHAIN_KEY, 0, None, None);
    assert_eq!(ext.commit_attestation(signer, &attestation_1), Ok(()));
    let data = AttestationData {
        chain_key: SUPPORTED_CHAIN_KEY,
        header_number: 10,
        header_hash: ext.random_hash(),
        prev_digest: None,
    };
    let fragment = construct_fragment(attestation_1.prev_digest(), 1, 9);
    let attestation_2 = bls_sign_attestation(&[attestor.clone()], data, &fragment);
    assert_eq!(ext.commit_attestation(signer, &attestation_2), Err(Error::InvalidAttestationPrevDigest));
}

#[test]
fn commit_attestation_should_error_on_invalid_continuity_head() {
    let mut ext = Ext::build();
    let attestor = Attestor::new(STASH_1, ATTESTOR_1);
    let signer = Origin::signed(attestor.attestor_id);
    activate(&mut ext, &attestor);
    let attestation_1 = create_signed_attestation(&mut ext, &[attestor.clone()], SUPPORTED_CHAIN_KEY, 0, None, None);
    assert_eq!(ext.commit_attestation(signer, &attestation_1), Ok(()));
    let data = AttestationData {
        chain_key: SUPPORTED_CHAIN_KEY,
        header_number: 10,
        header_hash: ext.random_hash(),
        prev_digest: Some(attestation_1.digest()),
    };
    let random = ext.random_hash();
    let fragment = construct_fragment(Some(random), 1, 9);
    let attestation_2 = bls_sign_attestation(&[attestor.clone()], data, &fragment);
    assert_eq!(ext.commit_attestation(signer, &attestation_2), Err(Error::InvalidAttestationContinuityProofTail));
}

#[test]
fn commit_attestation_should_error_on_invalid_continuity_block() {
    let mut ext = Ext::build();
    let attestor = Attestor::new(STASH_1, ATTESTOR_1);
    let signer = Origin::signed(attestor.attestor_id);
    activate(&mut ext, &attestor);
    let attestation_1 = create_signed_attestation(&mut ext, &[attestor.clone()], SUPPORTED_CHAIN_KEY, 0, None, None);
    assert_eq!(ext.commit_attestation(signer, &attestation_1), Ok(()));
    let correct_fragment = construct_fragment(Some(attestation_1.digest()), 1, 9);
    let data = AttestationData {
        chain_key: SUPPORTED_CHAIN_KEY,
        header_number: 10,
        header_hash: ext.random_hash(),
        prev_digest: correct_fragment.head(),
    };
    // Block 5 of the proof gets a wrong root, which breaks the digest chain from there on.
    let mut invalid = correct_fragment.clone();
    let mut d = invalid.digests[3];
    for (i, b) in (5..=9u64).enumerate() {
        d = block_digest(d, b, if b == 5 { 1 } else { 0 });
        invalid.digests[4 + i] = d;
    }
    let attestation_2 = bls_sign_attestation(&[attestor.clone()], data, &invalid);
    assert_eq!(ext.commit_attestation(signer, &attestation_2), Err(Error::InvalidAttestationContinuityProofHead));
}

#[test]
fn commit_attestation_should_error_on_invalid_continuity_genesis_block() {
    let mut ext = Ext::build();
    let attestor = Attestor::new(STASH_1, ATTESTOR_1);
    let signer = Origin::signed(attestor.attestor_id);
    activate(&mut ext, &attestor);
    let attestation_1 = create_signed_attestation(&mut ext, &[attestor.clone()], SUPPORTED_CHAIN_KEY, 0, None, None);
    let random = ext.random_hash();
    let correct_fragment = construct_fragment(Some(random), 0, 9);
    let data = AttestationData {
        chain_key: SUPPORTED_CHAIN_KEY,
        header_number: 10,
        header_hash: ext.random_hash(),
        prev_digest: correct_fragment.head(),
    };
    let attestation_2 = bls_sign_attestation(&[attestor.clone()], data, &correct_fragment);
    assert_eq!(ext.commit_attestation(signer, &attestation_1), Ok(()));
    assert_eq!(ext.commit_attestation(signer, &attestation_2), Err(Error::InvalidAttestationContinuityProofTail));
}

#[test]
fn commit_attestation_should_error_when_unsigned() {
    let mut ext = Ext::build();
    let attestor = Attestor::new(STASH_1, ATTESTOR_1);
    let attestation = create_signed_attestation(&mut ext, &[attestor], 1, 1, None, None);
    assert_eq!(ext.commit_attestation(Origin::none(), &attestation), Err(Error::BadOrigin));
}

#[test]
fn commit_attestation_should_error_when_signed_by_root() {
    let mut ext = Ext::build();
    let attestor = Attestor::new(STASH_1, ATTESTOR_1);
    let attestation = create_signed_attestation(&mut ext, &[attestor], 1, 1, None, None);
    assert_eq!(ext.commit_attestation(Origin::root(), &attestation), Err(Error::BadOrigin));
}

#[test]
fn validate_attestation_should_error_when_chain_is_not_supported() {
    let mut ext = Ext::build();
    let attestor = Attestor::new(STASH_1, ATTESTOR_1);
    let attestation = create_signed_attestation(&mut ext, &[attestor], 2, 1, None, None);
    assert_eq!(ext.validate_attestation(&attestation), Err(Error::ChainNotSupported));
}

#[test]
fn commit_attestation_should_error_when_submitting_duplicate_attestation() {
    let mut ext = Ext::build();
    let attestor = Attestor::new(STASH_1, ATTESTOR_1);
    let signer = Origin::signed(attestor.attestor_id);
    activate(&mut ext, &attestor);
    let attestation_1 = create_signed_attestation(&mut ext, &[attestor.clone()], 1, 0, None, None);
    assert_eq!(ext.commit_attestation(signer, &attestation_1), Ok(()));
    assert_eq!(ext.validate_attestation(&attestation_1), Err(Error::AttestationExists));
    let attestation_2 =
        create_signed_attestation(&mut ext, &[attestor.clone()], 1, 10, Some(attestation_1.digest()), None);
    assert_eq!(ext.commit_attestation(signer, &attestation_2), Ok(()));
    assert_eq!(ext.validate_attestation(&attestation_2), Err(Error::AttestationExists));
}

#[test]
fn validate_attestation_should_error_when_majority_not_reached() {
    let mut ext = Ext::build();
    assert_eq!(ext.set_target_sample_size(Origin::root(), SUPPORTED_CHAIN_KEY, 44), Ok(()));
    let attestor = Attestor::new(STASH_1, ATTESTOR_1);
    activate(&mut ext, &attestor);
    let attestation = create_signed_attestation(&mut ext, &[attestor], 1, 1, None, None);
    assert_eq!(ext.validate_attestation(&attestation), Err(Error::MajorityNotReached));
}

#[test]
fn submitting_attestation_chain_works() {
    let mut ext = Ext::build();
    let attestor = Attestor::new(STASH_1, ATTESTOR_1);
    let signer = Origin::signed(attestor.attestor_id);
    assert_eq!(ext.checkpointing_queue(SUPPORTED_CHAIN_KEY).len(), 0);
    activate(&mut ext, &attestor);
    let attestation_1 = create_signed_attestation(&mut ext, &[attestor.clone()], SUPPORTED_CHAIN_KEY, 0, None, None);
    assert_eq!(ext.commit_attestation(signer, &attestation_1), Ok(()));
    let digest = attestation_1.digest();
    let attestation_2 =
        create_signed_attestation(&mut ext, &[attestor.clone()], SUPPORTED_CHAIN_KEY, 11, Some(digest), None);
    assert_eq!(ext.commit_attestation(signer, &attestation_2), Ok(()));
    assert_eq!(ext.checkpointing_queue(SUPPORTED_CHAIN_KEY).len(), 1);
    assert_eq!(ext.checkpointing_queue(SUPPORTED_CHAIN_KEY).last().copied(), Some(attestation_2.digest()));
    assert!(attestation_1.same_as(ext.stored(SUPPORTED_CHAIN_KEY, attestation_1.digest()).unwrap()));
    assert!(attestation_2.same_as(ext.stored(SUPPORTED_CHAIN_KEY, attestation_2.digest()).unwrap()));
}

#[test]
fn test_attestation_submission_fails_if_threshold_not_met() {
    let mut ext = Ext::build();
    assert_eq!(ext.set_target_sample_size(Origin::root(), SUPPORTED_CHAIN_KEY, 3), Ok(()));
    let attestor_1 = Attestor::new(STASH_1, ATTESTOR_1);
    activate(&mut ext, &attestor_1);
    let attestation = create_signed_attestation(&mut ext, &[attestor_1], SUPPORTED_CHAIN_KEY, 0, None, None);
    assert_eq!(ext.validate_attestation(&attestation), Err(Error::MajorityNotReached));
}

#[test]
fn test_signing() {
    let att = Attestor::new(STASH_1, ATTESTOR_1);
    let message = att.private_key.public_key().as_bytes();
    let signature = att.sign(&message);
    assert!(att.private_key.public_key().verify(signature, &message));
}

/// Commits the attestations at 0, interval, .., (count - 1) * interval, each chained to
/// the one before; returns them and the digest of the last.
fn create_checkpoint(
    ext: &mut Ext,
    interval: u64,
    count: u64,
    mut last_digest: Option<Digest>,
    attestors: &[Attestor],
) -> (Vec<TestAttestation>, Option<Digest>) {
    let mut attestations = Vec::new();
    for i in 0..count {
        let header = interval * i;
        let fragment = construct_fragment(last_digest, header.saturating_sub(interval) + 1, header.saturating_sub(1));
        let attestation =
            create_signed_attestation(ext, attestors, SUPPORTED_CHAIN_KEY, header, last_digest, Some(fragment));
        last_digest = Some(attestation.digest());
        assert_eq!(ext.commit_attestation(Origin::signed(attestors[0].attestor_id), &attestation), Ok(()));
        attestations.push(attestation);
    }
    (attestations, last_digest)
}

#[test]
fn creating_checkpoint_works() {
    let mut ext = Ext::build();
    let attestor = Attestor::new(STASH_1, ATTESTOR_1);
    let att_interval = ext.att.params_for(SUPPORTED_CHAIN_KEY).attestation_interval;
    let att_per_check = ext.att.params_for(SUPPORTED_CHAIN_KEY).checkpoint_interval as u64;
    activate(&mut ext, &attestor);
    let (attestations, _) = create_checkpoint(&mut ext, att_interval, att_per_check * 2 + 1, None, &[attestor]);
    assert_eq!(ext.checkpointing_queue(SUPPORTED_CHAIN_KEY).len(), att_per_check as usize);
    let checkpoint_attestation = &attestations[att_per_check as usize];
    let resulting_checkpoint = AttestationCheckpoint {
        block_number: checkpoint_attestation.header_number(),
        digest: checkpoint_attestation.digest(),
    };
    assert_eq!(ext.last_event(), Some(Event::CheckpointReached(SUPPORTED_CHAIN_KEY, resulting_checkpoint)));
    assert_eq!(ext.checkpoint(SUPPORTED_CHAIN_KEY, resulting_checkpoint.block_number), Some(resulting_checkpoint.digest));
    assert_eq!(ext.last_checkpoint(SUPPORTED_CHAIN_KEY), Some(resulting_checkpoint));
}

#[test]
fn creating_checkpoint_purges_attestations_in_removal_queue() {
    let mut ext = Ext::build();
    let checkpoints_in_retention = 1;
    let checkpoints_to_create = checkpoints_in_retention + 2;
    let attestor = Attestor::new(STASH_1, ATTESTOR_1);
    let att_interval = ext.att.params_for(SUPPORTED_CHAIN_KEY).attestation_interval;
    let att_per_check = ext.att.params_for(SUPPORTED_CHAIN_KEY).checkpoint_interval;
    assert_eq!(att_per_check * checkpoints_in_retention, ext.att.params_for(SUPPORTED_CHAIN_KEY).retention);
    activate(&mut ext, &attestor);
    let (attestations, _) = create_checkpoint(
        &mut ext,
        att_interval,
        (att_per_check * checkpoints_to_create + 1) as u64,
        None,
        &[attestor],
    );
    assert_eq!(ext.removal_queue(SUPPORTED_CHAIN_KEY).len(), (att_per_check * checkpoints_in_retention) as usize);
    for (i, a) in attestations.iter().enumerate() {
        if i < (att_per_check + 1) as usize {
            assert!(ext.stored(SUPPORTED_CHAIN_KEY, a.digest()).is_none());
        } else {
            assert!(a.same_as(ext.stored(SUPPORTED_CHAIN_KEY, a.digest()).unwrap()));
        }
    }
}

/// No checkpoint is made while the attested blocks lie less than two checkpoint widths
/// past the last checkpoint.
#[test]
fn no_checkpoint_before_two_widths_are_attested() {
    let mut ext = Ext::build();
    let attestor = Attestor::new(STASH_1, ATTESTOR_1);
    activate(&mut ext, &attestor);
    create_checkpoint(&mut ext, 10, 20, None, &[attestor]);
    assert_eq!(ext.checkpointing_queue(SUPPORTED_CHAIN_KEY).len(), 19);
    assert_eq!(ext.last_checkpoint(SUPPORTED_CHAIN_KEY).unwrap().block_number, 0);
}

#[test]
fn checkpointing_rolls_back_storage_changes_if_checkpointing_queue_does_not_match_attestations_map() {
    let mut ext = Ext::build();
    let attestor = Attestor::new(STASH_1, ATTESTOR_1);
    let att_interval = ext.att.params_for(SUPPORTED_CHAIN_KEY).attestation_interval;
    let att_per_check = ext.att.params_for(SUPPORTED_CHAIN_KEY).checkpoint_interval as u64;
    activate(&mut ext, &attestor);
    let (_, mut last_digest) = create_checkpoint(&mut ext, att_per_check, att_per_check, None, &[attestor.clone()]);
    // A queue entry without an attestation behind it.
    let mut queue = ext.checkpointing_queue(SUPPORTED_CHAIN_KEY);
    queue.push(digest_from_bytes(&[0u8; 32]));
    ext.att.store.checkpointing_queues.insert(SUPPORTED_CHAIN_KEY, queue);
    for i in att_per_check..(att_per_check * 2) {
        let header = att_interval * i;
        let fragment = construct_fragment(last_digest, header.saturating_sub(att_interval) + 1, header.saturating_sub(1));
        let attestation = create_signed_attestation(
            &mut ext,
            &[attestor.clone()],
            SUPPORTED_CHAIN_KEY,
            header,
            last_digest,
            Some(fragment),
        );
        last_digest = Some(attestation.digest());
        assert_eq!(ext.commit_attestation(Origin::signed(attestor.attestor_id), &attestation), Ok(()));
    }
}

#[test]
fn removing_attestor_and_unbonding_staked_funds_work() {
    let mut ext = Ext::build();
    let attestor = Attestor::new(STASH_1, ATTESTOR_1);
    assert_eq!(ext.register_attestor(attestor.stash, SUPPORTED_CHAIN_KEY, attestor.attestor_id), Ok(()));
    let min_bond_requirement = ext.att.params_for(SUPPORTED_CHAIN_KEY).min_bond;
    let ledger = ext.att.ledgers.get(&STASH_1).unwrap();
    assert_eq!(ledger.stash, STASH_1);
    assert_eq!(ledger.total_staked, min_bond_requirement);
    assert_eq!(ext.unregister_attestor(attestor.stash, SUPPORTED_CHAIN_KEY, attestor.attestor_id), Ok(()));
    assert!(ext.attestor(SUPPORTED_CHAIN_KEY, ATTESTOR_1).is_none());
    let ledger = ext.att.ledgers.get(&STASH_1).unwrap();
    assert_eq!(ledger.stash, STASH_1);
    assert_eq!(ledger.total_staked, min_bond_requirement);
    assert_eq!(ext.get_locked_balance(attestor.stash_id), min_bond_requirement);
    ext.progress_to_block(50);
    assert_eq!(ext.withdraw_unbonded(attestor.stash), Ok(()));
    assert!(ext.att.ledgers.get(&STASH_1).is_none());
    assert_eq!(ext.get_locked_balance(attestor.stash_id), 0);
    assert_eq!(ext.last_event(), Some(Event::Withdrawn { stash: STASH_1, amount: 100_000_000_000_000_000_000 }));
}

#[test]
fn withdrawing_unbonded_from_non_unregistered_attestors_fails() {
    let mut ext = Ext::build();
    let attestor = Attestor::new(STASH_1, ATTESTOR_1);
    assert_eq!(ext.register_attestor(attestor.stash, SUPPORTED_CHAIN_KEY, attestor.attestor_id), Ok(()));
    let min_bond_requirement = ext.att.params_for(SUPPORTED_CHAIN_KEY).min_bond;
    let ledger = ext.att.ledgers.get(&STASH_1).unwrap();
    assert_eq!(ledger.stash, STASH_1);
    assert_eq!(ledger.total_staked, min_bond_requirement);
    ext.progress_to_block(50);
    assert_eq!(ext.withdraw_unbonded(attestor.stash), Ok(()));
    assert_eq!(ext.get_locked_balance(STASH_1), min_bond_requirement);
    let ledger = ext.att.ledgers.get(&STASH_1).unwrap();
    assert_eq!(ledger.stash, STASH_1);
    assert_eq!(ledger.total_staked, min_bond_requirement);
}

#[test]
fn removing_attestor_and_withdrawing_fails_if_not_waited_long_enough() {
    let mut ext = Ext::build();
    let attestor = Attestor::new(STASH_1, ATTESTOR_1);
    assert_eq!(ext.register_attestor(attestor.stash, SUPPORTED_CHAIN_KEY, attestor.attestor_id), Ok(()));
    let min_bond_requirement = ext.att.params_for(SUPPORTED_CHAIN_KEY).min_bond;
    assert_eq!(ext.unregister_attestor(attestor.stash, SUPPORTED_CHAIN_KEY, attestor.attestor_id), Ok(()));
    assert!(ext.attestor(SUPPORTED_CHAIN_KEY, ATTESTOR_1).is_none());
    let ledger = ext.att.ledgers.get(&STASH_1).unwrap();
    assert_eq!(ledger.stash, STASH_1);
    assert_eq!(ledger.total_staked, min_bond_requirement);
    assert_eq!(ext.get_locked_balance(STASH_1), min_bond_requirement);
    ext.progress_to_block(5);
    assert_eq!(ext.withdraw_unbonded(attestor.stash), Ok(()));
    let ledger = ext.att.ledgers.get(&STASH_1).unwrap();
    assert_eq!(ledger.stash, STASH_1);
    assert_eq!(ledger.total_staked, min_bond_requirement);
    assert_eq!(ledger.unlocking.len(), 1);
    assert_eq!(ledger.unlocking[0].era, 3);
}

#[test]
fn unregistering_attestor_which_is_not_yours_fails() {
    let mut ext = Ext::build();
    let attestor = Attestor::new(STASH_1, ATTESTOR_1);
    assert_eq!(ext.register_attestor(attestor.stash, SUPPORTED_CHAIN_KEY, attestor.attestor_id), Ok(()));
    assert_eq!(
        ext.unregister_attestor(Origin::signed(STASH_2), SUPPORTED_CHAIN_KEY, attestor.attestor_id),
        Err(Error::NotYourAttestor)
    );
}

#[test]
fn unregistering_non_existant_attestor_fails() {
    let mut ext = Ext::build();
    assert_eq!(
        ext.unregister_attestor(Origin::signed(STASH_1), SUPPORTED_CHAIN_KEY, ATTESTOR_1),
        Err(Error::AddressNotAttestor)
    );
}

#[test]
fn withdraw_unbonded_should_error_when_not_signed() {
    let mut ext = Ext::build();
    assert_eq!(ext.withdraw_unbonded(Origin::none()), Err(Error::BadOrigin));
}

#[test]
fn withdraw_unbonded_should_error_when_signer_is_not_a_stash() {
    let mut ext = Ext::build();
    assert_eq!(ext.withdraw_unbonded(Origin::signed(STASH_1)), Err(Error::NotStash));
}

#[test]
fn on_supported_chain_removed_cleans_up_storage_and_chills_attestors() {
    let mut ext = Ext::build();
    let dummy_val: u32 = 5000;
    let attestor = Attestor::new(STASH_1, ATTESTOR_1);
    assert_eq!(ext.register_attestor(attestor.stash, SUPPORTED_CHAIN_KEY, attestor.attestor_id), Ok(()));
    assert_eq!(
        ext.attest(Origin::signed(attestor.attestor_id), SUPPORTED_CHAIN_KEY, attestor.public_key, &attestor.signature),
        Ok(())
    );
    let attestor2 = Attestor::new(STASH_1, ATTESTOR_2);
    assert_eq!(ext.register_attestor(attestor2.stash, SUPPORTED_CHAIN_KEY, attestor2.attestor_id), Ok(()));
    assert_eq!(
        ext.attest(Origin::signed(attestor2.attestor_id), SUPPORTED_CHAIN_KEY, attestor2.public_key, &attestor2.signature),
        Ok(())
    );
    ext.att.active_attestors.insert(SUPPORTED_CHAIN_KEY, vec![ATTESTOR_1]);
    ext.att.invulnerables.insert((SUPPORTED_CHAIN_KEY, ATTESTOR_1), ());
    let p = ext.att.params_for(SUPPORTED_CHAIN_KEY);
    ext.att.params.insert(
        SUPPORTED_CHAIN_KEY,
        ChainParams { max_attestors: dummy_val, max_invulnerables: dummy_val, ..p },
    );
    let max_attestations = ext.att.params_for(SUPPORTED_CHAIN_KEY).checkpoint_interval * 2 + 1;
    let mut queue = Vec::new();
    for i in 0..max_attestations {
        let attestation =
            create_signed_attestation(&mut ext, &[attestor.clone()], SUPPORTED_CHAIN_KEY, (i * 10) as u64, None, None);
        ext.att.store.attestations.insert((SUPPORTED_CHAIN_KEY, attestation.digest()), attestation.signed());
        if i != 0 {
            queue.push(attestation.digest());
            let checkpoint = AttestationCheckpoint { block_number: i as u64, digest: attestation.digest() };
            ext.att.store.checkpoints.insert((SUPPORTED_CHAIN_KEY, i as u64), attestation.digest());
            ext.att.store.last_checkpoint.insert(SUPPORTED_CHAIN_KEY, checkpoint);
        }
        if i == max_attestations - 1 {
            ext.att.store.last_digest.insert(SUPPORTED_CHAIN_KEY, (attestation.header_number(), attestation.digest()));
        }
    }
    ext.att.store.checkpointing_queues.insert(SUPPORTED_CHAIN_KEY, queue);
    ext.att.pending_sample_sizes.insert(SUPPORTED_CHAIN_KEY, dummy_val);
    ext.att.pending_intervals.insert(SUPPORTED_CHAIN_KEY, dummy_val as u64);
    let p = ext.att.params_for(SUPPORTED_CHAIN_KEY);
    ext.att.params.insert(
        SUPPORTED_CHAIN_KEY,
        ChainParams {
            target_sample_size: dummy_val,
            attestation_interval: dummy_val as u64,
            checkpoint_interval: dummy_val,
            ..p
        },
    );

    ext.remove_chain(SUPPORTED_CHAIN_KEY, true);

    assert_eq!(ext.attestor(SUPPORTED_CHAIN_KEY, attestor.attestor_id).unwrap().status, AttestorStatus::Idle);
    assert_eq!(ext.attestor(SUPPORTED_CHAIN_KEY, attestor2.attestor_id).unwrap().status, AttestorStatus::Idle);
    assert_eq!(ext.att.active_for(SUPPORTED_CHAIN_KEY), Vec::<u64>::new());
    assert_eq!(ext.invulnerable_count(SUPPORTED_CHAIN_KEY), 0);
    let p = ext.att.params_for(SUPPORTED_CHAIN_KEY);
    assert_eq!(p.max_attestors, MAX_ATTESTATION_NODES);
    assert_eq!(p.max_invulnerables, MAX_ATTESTATION_NODES);
    assert_eq!(ext.att.store.attestations.keys_of_chain(SUPPORTED_CHAIN_KEY).len(), 0);
    assert_eq!(ext.checkpointing_queue(SUPPORTED_CHAIN_KEY), Vec::<Digest>::new());
    assert_eq!(ext.last_attestation_digest(SUPPORTED_CHAIN_KEY), None);
    assert_eq!(ext.att.pending_sample_sizes.get(&SUPPORTED_CHAIN_KEY).copied(), None);
    assert_eq!(p.target_sample_size, DEFAULT_TARGET_SAMPLE_SIZE);
    assert_eq!(p.attestation_interval, DEFAULT_ATTESTATION_INTERVAL);
    assert_eq!(ext.att.pending_intervals.get(&SUPPORTED_CHAIN_KEY).copied(), None);
    assert_eq!(p.checkpoint_interval, DEFAULT_ATTESTATIONS_PER_CHECKPOINT);
    assert_eq!(ext.last_checkpoint(SUPPORTED_CHAIN_KEY), None);
    assert!(ext.has_event(Event::ClearedStorageForRemovedChain(SUPPORTED_CHAIN_KEY)));
}

#[test]
fn on_supported_chain_removed_cleans_up_checkpoints() {
    let max_cleared = creditcoin_pallets::attestation::store::MAX_CHECKPOINTS_CLEARED_PER_BLOCK as u64;
    let added_checkpoints = max_cleared * 2 + 10;
    let mut ext = Ext::build();
    for i in 0..added_checkpoints {
        let mut b = [0u8; 32];
        b[0] = i as u8;
        b[31] = 0xcc;
        ext.att.store.checkpoints.insert((SUPPORTED_CHAIN_KEY, i * 100), digest_from_bytes(&b));
    }
    assert_eq!(ext.att.store.checkpoints.keys_of_chain(SUPPORTED_CHAIN_KEY).len() as u64, max_cleared * 2 + 10);
    ext.remove_chain(SUPPORTED_CHAIN_KEY, true);
    assert_eq!(ext.att.store.checkpoints.keys_of_chain(SUPPORTED_CHAIN_KEY).len() as u64, max_cleared + 10);
    ext.progress_to_block(2);
    assert_eq!(ext.att.store.checkpoints.keys_of_chain(SUPPORTED_CHAIN_KEY).len(), 10);
    ext.progress_to_block(3);
    assert_eq!(ext.att.store.checkpoints.keys_of_chain(SUPPORTED_CHAIN_KEY).len(), 0);
    assert!(!ext.att.store.checkpoint_clearing.contains_key(&SUPPORTED_CHAIN_KEY));
    assert_eq!(ext.last_event(), Some(Event::CheckpointsCleared(SUPPORTED_CHAIN_KEY)));
}

#[test]
fn unregister_attestor_still_works_after_removing_that_attestors_chain() {
    let mut ext = Ext::build();
    let attestor = Attestor::new(STASH_1, ATTESTOR_1);
    assert_eq!(ext.register_attestor(attestor.stash, SUPPORTED_CHAIN_KEY, attestor.attestor_id), Ok(()));
    assert_eq!(
        ext.attest(Origin::signed(attestor.attestor_id), SUPPORTED_CHAIN_KEY, attestor.public_key, &attestor.signature),
        Ok(())
    );
    assert_eq!(ext.attestor(SUPPORTED_CHAIN_KEY, attestor.attestor_id).unwrap().status, AttestorStatus::Waiting);
    ext.remove_chain(SUPPORTED_CHAIN_KEY, true);
    assert_eq!(ext.attestor(SUPPORTED_CHAIN_KEY, attestor.attestor_id).unwrap().status, AttestorStatus::Idle);
    assert_eq!(ext.unregister_attestor(attestor.stash, SUPPORTED_CHAIN_KEY, attestor.attestor_id), Ok(()));
    assert!(ext.attestor(SUPPORTED_CHAIN_KEY, attestor.attestor_id).is_none());
}

#[test]
fn batch_attestations_adding_one_on_duplicates_fails() {
    let mut ext = Ext::build();
    let attestor1 = Attestor::new(STASH_1, ATTESTOR_1);
    assert_eq!(ext.register_attestor(attestor1.stash, SUPPORTED_CHAIN_KEY, attestor1.attestor_id), Ok(()));
    assert_eq!(
        ext.attest(Origin::signed(attestor1.attestor_id), SUPPORTED_CHAIN_KEY, attestor1.public_key, &attestor1.signature),
        Ok(())
    );
    let attestor2 = Attestor::new(STASH_1, ATTESTOR_2);
    assert_eq!(ext.register_attestor(attestor2.stash, SUPPORTED_CHAIN_KEY, attestor2.attestor_id), Ok(()));
    assert_eq!(
        ext.attest(Origin::signed(attestor2.attestor_id), SUPPORTED_CHAIN_KEY, attestor2.public_key, &attestor2.signature),
        Ok(())
    );
    let attestation_block = ext.block - 1;
    ext.progress_to_block(5);
    let both = [attestor1.clone(), attestor2.clone()];
    let attestation1 = create_signed_attestation(&mut ext, &both, SUPPORTED_CHAIN_KEY, 0, None, None);
    let attestation2 =
        create_signed_attestation(&mut ext, &both, SUPPORTED_CHAIN_KEY, 10, Some(attestation1.digest()), None);
    let signer = Origin::signed(attestor1.attestor_id);
    assert_eq!(ext.commit_attestation(signer, &attestation1), Ok(()));
    assert_eq!(ext.commit_attestation(signer, &attestation2), Ok(()));
    assert_eq!(ext.checkpoint(SUPPORTED_CHAIN_KEY, attestation_block), Some(attestation1.digest()));
    assert!(ext.att.store.checkpoint_buckets.contains_key(&(SUPPORTED_CHAIN_KEY, 0, attestation_block)));
    let attestation3 =
        create_signed_attestation(&mut ext, &both, SUPPORTED_CHAIN_KEY, 20, Some(attestation1.digest()), None);
    assert_eq!(ext.validate_attestation(&attestation1), Err(Error::AttestationExists));
    assert_eq!(ext.validate_attestation(&attestation2), Err(Error::AttestationExists));
    assert_eq!(ext.validate_attestation(&attestation3), Ok(()));
}

#[test]
fn setting_attestation_chain_genesis_block_number_works() {
    let mut ext = Ext::build();
    assert_eq!(ext.set_attestation_chain_genesis_block_number(Origin::root(), SUPPORTED_CHAIN_KEY, 1000), Ok(()));
    assert_eq!(ext.att.params_for(SUPPORTED_CHAIN_KEY).genesis_block_number, 1000);
}

#[test]
fn default_attestation_chain_genesis_block_number_works() {
    let ext = Ext::build();
    assert_eq!(ext.att.params_for(SUPPORTED_CHAIN_KEY).genesis_block_number, 0);
}

#[test]
fn set_attestation_chain_genesis_block_number_should_fail_when_not_root() {
    let mut ext = Ext::build();
    assert_eq!(
        ext.set_attestation_chain_genesis_block_number(Origin::signed(ATTESTOR_1), SUPPORTED_CHAIN_KEY, 1000),
        Err(Error::BadOrigin)
    );
}

#[test]
fn set_attestation_chain_genesis_block_number_should_fail_when_chain_not_supported() {
    let mut ext = Ext::build();
    assert_eq!(
        ext.set_attestation_chain_genesis_block_number(Origin::root(), 123123, 1000),
        Err(Error::ChainNotSupported)
    );
}

#[test]
fn set_attestation_chain_genesis_block_number_should_fail_when_attestations_exist() {
    let mut ext = Ext::build();
    let attestor = Attestor::new(STASH_1, ATTESTOR_1);
    activate(&mut ext, &attestor);
    let attestation = create_signed_attestation(&mut ext, &[attestor.clone()], SUPPORTED_CHAIN_KEY, 0, None, None);
    assert_eq!(ext.commit_attestation(Origin::signed(attestor.attestor_id), &attestation), Ok(()));
    assert!(ext.stored(SUPPORTED_CHAIN_KEY, attestation.digest()).is_some());
    assert_eq!(
        ext.set_attestation_chain_genesis_block_number(Origin::root(), SUPPORTED_CHAIN_KEY, 1000),
        Err(Error::AttestationsAlreadyExist)
    );
}

#[test]
fn set_attestation_chain_genesis_block_number_should_fail_when_checkpoints_exist() {
    let mut ext = Ext::build();
    ext.att.store.checkpoints.insert((SUPPORTED_CHAIN_KEY, 100), digest_from_bytes(&[1u8; 32]));
    assert!(ext.checkpoint(SUPPORTED_CHAIN_KEY, 100).is_some());
    assert_eq!(
        ext.set_attestation_chain_genesis_block_number(Origin::root(), SUPPORTED_CHAIN_KEY, 1000),
        Err(Error::AttestationsAlreadyExist)
    );
}

#[test]
fn commit_attestation_should_fail_when_genesis_block_number_is_not_correct() {
    let mut ext = Ext::build();
    let attestor = Attestor::new(STASH_1, ATTESTOR_1);
    activate(&mut ext, &attestor);
    let attestation = create_signed_attestation(&mut ext, &[attestor.clone()], SUPPORTED_CHAIN_KEY, 0, None, None);
    let p = ext.att.params_for(SUPPORTED_CHAIN_KEY);
    ext.att.params.insert(SUPPORTED_CHAIN_KEY, ChainParams { genesis_block_number: 2000, ..p });
    assert_eq!(
        ext.commit_attestation(Origin::signed(attestor.attestor_id), &attestation),
        Err(Error::InvalidAttestationPrevDigest)
    );
}

#[test]
fn commit_attestation_should_succeed_when_genesis_block_number_is_correct() {
    let mut ext = Ext::build();
    let attestor = Attestor::new(STASH_1, ATTESTOR_1);
    activate(&mut ext, &attestor);
    let attestation = create_signed_attestation(
        &mut ext,
        &[attestor.clone()],
        SUPPORTED_CHAIN_KEY,
        10000,
        None,
        Some(Fragment::empty()),
    );
    let p = ext.att.params_for(SUPPORTED_CHAIN_KEY);
    ext.att.params.insert(SUPPORTED_CHAIN_KEY, ChainParams { genesis_block_number: 10000, ..p });
    assert_eq!(ext.commit_attestation(Origin::signed(attestor.attestor_id), &attestation), Ok(()));
}

#[test]
fn set_election_policy_should_error_when_not_signed() {
    let mut ext = Ext::build();
    assert_eq!(
        ext.set_election_policy(Origin::none(), SUPPORTED_CHAIN_KEY, AttestorElectionPolicy::DeniedToAll),
        Err(Error::BadOrigin)
    );
}

#[test]
fn set_election_policy_should_error_when_not_signed_by_root() {
    let mut ext = Ext::build();
    assert_eq!(
        ext.set_election_policy(Origin::signed(ATTESTOR_1), SUPPORTED_CHAIN_KEY, AttestorElectionPolicy::DeniedToAll),
        Err(Error::BadOrigin)
    );
}

#[test]
fn set_election_policy_should_update_storage_and_emit_event() {
    let mut ext = Ext::build();
    assert_eq!(ext.att.params_for(SUPPORTED_CHAIN_KEY).election_policy, AttestorElectionPolicy::OpenToAny);
    assert_eq!(
        ext.set_election_policy(Origin::root(), SUPPORTED_CHAIN_KEY, AttestorElectionPolicy::DeniedToAll),
        Ok(())
    );
    assert_eq!(ext.att.params_for(SUPPORTED_CHAIN_KEY).election_policy, AttestorElectionPolicy::DeniedToAll);
    assert_eq!(
        ext.last_event(),
        Some(Event::ChangedElectionPolicy(SUPPORTED_CHAIN_KEY, AttestorElectionPolicy::DeniedToAll))
    );
}

#[test]
fn authorize_attestor_should_error_when_not_signed() {
    let mut ext = Ext::build();
    assert_eq!(ext.authorize_attestor(Origin::none(), SUPPORTED_CHAIN_KEY, ATTESTOR_1), Err(Error::BadOrigin));
}

#[test]
fn authorize_attestor_should_error_when_not_signed_by_root() {
    let mut ext = Ext::build();
    assert_eq!(
        ext.authorize_attestor(Origin::signed(ATTESTOR_1), SUPPORTED_CHAIN_KEY, ATTESTOR_1),
        Err(Error::BadOrigin)
    );
}

#[test]
fn authorize_attestor_should_error_when_chain_is_not_supported() {
    let mut ext = Ext::build();
    assert_eq!(ext.authorize_attestor(Origin::root(), 999, ATTESTOR_1), Err(Error::ChainNotSupported));
}

#[test]
fn authorize_attestor_should_error_when_address_is_not_attestor() {
    let mut ext = Ext::build();
    assert_eq!(
        ext.authorize_attestor(Origin::root(), SUPPORTED_CHAIN_KEY, ATTESTOR_1),
        Err(Error::AddressNotAttestor)
    );
}

#[test]
fn authorize_attestor_should_error_when_attestor_already_authorized() {
    let mut ext = Ext::build();
    let attestor = Attestor::new(STASH_1, ATTESTOR_1);
    assert_eq!(ext.register_attestor(attestor.stash, SUPPORTED_CHAIN_KEY, attestor.attestor_id), Ok(()));
    assert_eq!(ext.authorize_attestor(Origin::root(), SUPPORTED_CHAIN_KEY, ATTESTOR_1), Ok(()));
    assert_eq!(
        ext.authorize_attestor(Origin::root(), SUPPORTED_CHAIN_KEY, ATTESTOR_1),
        Err(Error::AttestorAlreadyAuthorized)
    );
}

#[test]
fn authorize_attestor_should_update_storage_and_emit_event() {
    let mut ext = Ext::build();
    let attestor = Attestor::new(STASH_1, ATTESTOR_1);
    assert_eq!(ext.register_attestor(attestor.stash, SUPPORTED_CHAIN_KEY, attestor.attestor_id), Ok(()));
    assert!(!ext.att.authorized.contains_key(&(SUPPORTED_CHAIN_KEY, ATTESTOR_1)));
    assert_eq!(ext.authorize_attestor(Origin::root(), SUPPORTED_CHAIN_KEY, ATTESTOR_1), Ok(()));
    assert!(ext.att.authorized.contains_key(&(SUPPORTED_CHAIN_KEY, ATTESTOR_1)));
    assert_eq!(ext.last_event(), Some(Event::AuthorizedAttestorAdded(SUPPORTED_CHAIN_KEY, ATTESTOR_1)));
}

#[test]
fn removed_authorized_attestor_should_error_when_not_signed() {
    let mut ext = Ext::build();
    assert_eq!(ext.remove_authorized_attestor(Origin::none(), SUPPORTED_CHAIN_KEY, ATTESTOR_1), Err(Error::BadOrigin));
}

#[test]
fn removed_authorized_attestor_should_error_when_not_signed_by_root() {
    let mut ext = Ext::build();
    assert_eq!(
        ext.remove_authorized_attestor(Origin::signed(ATTESTOR_1), SUPPORTED_CHAIN_KEY, ATTESTOR_1),
        Err(Error::BadOrigin)
    );
}

#[test]
fn removed_authorized_attestor_should_error_when_attestor_not_authorized() {
    let mut ext = Ext::build();
    assert_eq!(
        ext.remove_authorized_attestor(Origin::root(), SUPPORTED_CHAIN_KEY, ATTESTOR_1),
        Err(Error::AttestorNotAuthorized)
    );
}

#[test]
fn removed_authorized_attestor_should_update_storage_and_emit_event() {
    let mut ext = Ext::build();
    let attestor = Attestor::new(STASH_1, ATTESTOR_1);
    assert_eq!(ext.register_attestor(attestor.stash, SUPPORTED_CHAIN_KEY, attestor.attestor_id), Ok(()));
    assert_eq!(ext.authorize_attestor(Origin::root(), SUPPORTED_CHAIN_KEY, ATTESTOR_1), Ok(()));
    assert!(ext.att.authorized.contains_key(&(SUPPORTED_CHAIN_KEY, ATTESTOR_1)));
    assert_eq!(ext.remove_authorized_attestor(Origin::root(), SUPPORTED_CHAIN_KEY, ATTESTOR_1), Ok(()));
    assert!(!ext.att.authorized.contains_key(&(SUPPORTED_CHAIN_KEY, ATTESTOR_1)));
    assert_eq!(ext.last_event(), Some(Event::AuthorizedAttestorRemoved(SUPPORTED_CHAIN_KEY, ATTESTOR_1)));
}

#[test]
fn kick_active_attestor_should_error_when_not_signed() {
    let mut ext = Ext::build();
    assert_eq!(ext.kick_active_attestor(Origin::none(), SUPPORTED_CHAIN_KEY, ATTESTOR_1, false), Err(Error::BadOrigin));
}

#[test]
fn kick_active_attestor_should_error_when_not_signed_by_root() {
    let mut ext = Ext::build();
    assert_eq!(
        ext.kick_active_attestor(Origin::signed(ATTESTOR_1), SUPPORTED_CHAIN_KEY, ATTESTOR_1, false),
        Err(Error::BadOrigin)
    );
}

#[test]
fn kick_active_attestor_should_error_when_address_is_not_attestor() {
    let mut ext = Ext::build();
    assert_eq!(
        ext.kick_active_attestor(Origin::root(), SUPPORTED_CHAIN_KEY, ATTESTOR_1, false),
        Err(Error::AddressNotAttestor)
    );
}

#[test]
fn kick_active_attestor_should_chill_attestor() {
    let mut ext = Ext::build();
    let attestor = Attestor::new(STASH_1, ATTESTOR_1);
    activate(&mut ext, &attestor);
    assert_eq!(ext.attestor(SUPPORTED_CHAIN_KEY, ATTESTOR_1).unwrap().status, AttestorStatus::Active);
    assert!(ext.att.active_for(SUPPORTED_CHAIN_KEY).contains(&ATTESTOR_1));
    assert_eq!(ext.kick_active_attestor(Origin::root(), SUPPORTED_CHAIN_KEY, ATTESTOR_1, false), Ok(()));
    assert_eq!(ext.attestor(SUPPORTED_CHAIN_KEY, ATTESTOR_1).unwrap().status, AttestorStatus::Idle);
    assert!(!ext.att.active_for(SUPPORTED_CHAIN_KEY).contains(&ATTESTOR_1));
    assert!(ext.has_event(Event::AttestorChilled(SUPPORTED_CHAIN_KEY, ATTESTOR_1)));
}

#[test]
fn kick_active_attestor_should_unregister_attestor_when_flag_is_set() {
    let mut ext = Ext::build();
    let attestor = Attestor::new(STASH_1, ATTESTOR_1);
    activate(&mut ext, &attestor);
    assert_eq!(ext.attestor(SUPPORTED_CHAIN_KEY, ATTESTOR_1).unwrap().status, AttestorStatus::Active);
    assert_eq!(ext.kick_active_attestor(Origin::root(), SUPPORTED_CHAIN_KEY, ATTESTOR_1, true), Ok(()));
    assert!(ext.attestor(SUPPORTED_CHAIN_KEY, ATTESTOR_1).is_none());
    assert!(ext.has_event(Event::AttestorUnregistered(SUPPORTED_CHAIN_KEY, ATTESTOR_1)));
}

#[test]
#[should_panic(expected = "InvalidBlsSignature")]
fn extract_agg_signature_should_fail_when_signature_is_invalid() {
    let mut ext = Ext::build();
    let attestor = Attestor::new(STASH_1, ATTESTOR_1);
    activate(&mut ext, &attestor);
    let mut attestation = create_signed_attestation(&mut ext, &[attestor], SUPPORTED_CHAIN_KEY, 0, None, None);
    attestation.signature =
        b"000000000000000000000000000000000000000000000000000000000000000000000000000000000000000000000000".to_vec();
    ext.validate_attestation(&attestation).unwrap();
}

#[test]
#[should_panic(expected = "InvalidBlsSignature")]
fn verify_agg_signature_should_error_when_no_active_attestors() {
    let mut ext = Ext::build();
    let attestor1 = Attestor::new(STASH_1, ATTESTOR_1);
    let attestor2 = Attestor::new(STASH_2, ATTESTOR_2);
    activate(&mut ext, &attestor2);
    // Signed by attestor 1, checked against the key of attestor 2.
    let mut attestation = create_signed_attestation(&mut ext, &[attestor1], SUPPORTED_CHAIN_KEY, 0, None, None);
    attestation.attestors = vec![ATTESTOR_2];
    ext.validate_attestation(&attestation).unwrap();
}

#[test]
#[should_panic(expected = "InvalidAttestorFound")]
fn gather_attestor_public_keys_should_error_when_attestor_not_registered() {
    let ext = Ext::build();
    let attestor = Attestor::new(STASH_1, ATTESTOR_1);
    ext.att.gather_attestor_public_keys(SUPPORTED_CHAIN_KEY, &vec![attestor.attestor_id]).unwrap();
}

#[test]
#[should_panic(expected = "AttestorWithInvalidPublicKey")]
fn gather_attestor_public_keys_should_error_when_bls_pubkey_malformed() {
    let mut ext = Ext::build();
    let attestor = Attestor::new(STASH_1, ATTESTOR_1);
    assert_eq!(ext.register_attestor(Origin::signed(STASH_1), SUPPORTED_CHAIN_KEY, ATTESTOR_1), Ok(()));
    let mut a = ext.attestor(SUPPORTED_CHAIN_KEY, attestor.attestor_id).unwrap();
    a.bls_public_key = Some(key_from_bytes(b"000000000000000000000000000000000000000000000000"));
    ext.att.attestors.insert((SUPPORTED_CHAIN_KEY, attestor.attestor_id), a);
    ext.att.gather_attestor_public_keys(SUPPORTED_CHAIN_KEY, &vec![attestor.attestor_id]).unwrap();
}

#[test]
#[should_panic(expected = "AttestorWithInvalidPublicKey")]
fn gather_attestor_public_keys_should_error_when_bls_pubkey_is_none() {
    let mut ext = Ext::build();
    let attestor = Attestor::new(STASH_1, ATTESTOR_1);
    assert_eq!(ext.register_attestor(Origin::signed(STASH_1), SUPPORTED_CHAIN_KEY, ATTESTOR_1), Ok(()));
    let mut a = ext.attestor(SUPPORTED_CHAIN_KEY, attestor.attestor_id).unwrap();
    a.bls_public_key = None;
    ext.att.attestors.insert((SUPPORTED_CHAIN_KEY, attestor.attestor_id), a);
    ext.att.gather_attestor_public_keys(SUPPORTED_CHAIN_KEY, &vec![attestor.attestor_id]).unwrap();
}

fn checkpoints_of(blocks: &[(u64, u8)]) -> Vec<AttestationCheckpoint> {
    blocks.iter().map(|(b, d)| AttestationCheckpoint { block_number: *b, digest: digest_from_bytes(&[*d; 32]) }).collect()
}

fn assert_imported(ext: &Ext, checkpoints: &[AttestationCheckpoint]) {
    for checkpoint in checkpoints {
        assert_eq!(ext.checkpoint(SUPPORTED_CHAIN_KEY, checkpoint.block_number), Some(checkpoint.digest));
        assert!(ext.att.store.checkpoint_buckets.contains_key(&(
            SUPPORTED_CHAIN_KEY,
            ChainStore::compute_block_index_for(checkpoint.block_number),
            checkpoint.block_number
        )));
    }
}

#[test]
fn import_checkpoints_works() {
    let mut ext = Ext::build();
    let checkpoints = checkpoints_of(&[(100, 1), (200, 2), (300, 3)]);
    assert_eq!(ext.import_checkpoints(Origin::root(), SUPPORTED_CHAIN_KEY, &checkpoints), Ok(()));
    assert_imported(&ext, &checkpoints);
}

#[test]
fn import_checkpoints_should_fail_when_not_root() {
    let mut ext = Ext::build();
    let checkpoints = checkpoints_of(&[(100, 1), (200, 2), (300, 3)]);
    assert_eq!(
        ext.import_checkpoints(Origin::signed(ATTESTOR_1), SUPPORTED_CHAIN_KEY, &checkpoints),
        Err(Error::BadOrigin)
    );
}

#[test]
fn import_checkpoints_ignores_duplicate_digests() {
    let mut ext = Ext::build();
    let checkpoints = checkpoints_of(&[(100, 1), (100, 1), (200, 2)]);
    assert_eq!(ext.import_checkpoints(Origin::root(), SUPPORTED_CHAIN_KEY, &checkpoints), Ok(()));
    assert_imported(&ext, &checkpoints);
    assert_eq!(ext.att.store.checkpoints.keys_of_chain(SUPPORTED_CHAIN_KEY).len(), 2);
}

/// Once a chain has a last checkpoint, imported checkpoints at or above it are skipped;
/// older ones are still imported.
#[test]
fn import_checkpoints_skips_checkpoints_above_the_last_one() {
    let mut ext = Ext::build();
    let checkpoints1 = checkpoints_of(&[(100, 1), (200, 2)]);
    let checkpoints2 = checkpoints_of(&[(300, 3), (400, 4), (50, 5)]);
    assert_eq!(ext.import_checkpoints(Origin::root(), SUPPORTED_CHAIN_KEY, &checkpoints1), Ok(()));
    assert_eq!(ext.last_checkpoint(SUPPORTED_CHAIN_KEY), Some(checkpoints1[1]));
    assert_eq!(ext.import_checkpoints(Origin::root(), SUPPORTED_CHAIN_KEY, &checkpoints2), Ok(()));
    assert_imported(&ext, &checkpoints1);
    assert_imported(&ext, &checkpoints2[2..]);
    assert_eq!(ext.checkpoint(SUPPORTED_CHAIN_KEY, 300), None);
    assert_eq!(ext.checkpoint(SUPPORTED_CHAIN_KEY, 400), None);
    assert_eq!(ext.last_checkpoint(SUPPORTED_CHAIN_KEY), Some(checkpoints1[1]));
}

/// The bond pool holds exactly the bonds of the ledgers, through registrations,
/// unregistrations and withdrawals.
#[test]
fn bond_pool_holds_exactly_the_bonds() {
    let mut ext = Ext::build();
    let bonds = |ext: &Ext| [STASH_1, STASH_2, STASH_3].iter().map(|s| ext.get_locked_balance(*s)).sum::<u128>();
    let a1 = Attestor::new(STASH_3, ATTESTOR_1);
    let a2 = Attestor::new(STASH_3, ATTESTOR_2);
    let a3 = Attestor::new(STASH_1, ATTESTOR_3);
    for a in [&a1, &a2, &a3] {
        assert_eq!(ext.register_attestor(a.stash, SUPPORTED_CHAIN_KEY, a.attestor_id), Ok(()));
        assert_eq!(ext.balance(BOND_POOL), bonds(&ext));
    }
    assert_eq!(ext.balance(BOND_POOL), 3 * DEFAULT_MIN_BOND);
    assert_eq!(ext.unregister_attestor(a2.stash, SUPPORTED_CHAIN_KEY, a2.attestor_id), Ok(()));
    assert_eq!(ext.unregister_attestor(a3.stash, SUPPORTED_CHAIN_KEY, a3.attestor_id), Ok(()));
    ext.progress_to_block(50);
    assert_eq!(ext.withdraw_unbonded(a2.stash), Ok(()));
    assert_eq!(ext.balance(BOND_POOL), bonds(&ext));
    assert_eq!(ext.withdraw_unbonded(a3.stash), Ok(()));
    assert_eq!(ext.balance(BOND_POOL), bonds(&ext));
    assert_eq!(ext.balance(BOND_POOL), DEFAULT_MIN_BOND);
    assert!(ext.att.ledgers.get(&STASH_1).is_none());
}

fn assert_non_idle_attestors_hold_keys(ext: &Ext) {
    for k in ext.att.attestors.keys() {
        let a = ext.att.attestors.get(&k).unwrap();
        if a.status != AttestorStatus::Idle {
            assert!(a.bls_public_key.is_some());
        }
    }
}

/// Through registration, key registration, election, chilling and unregistration,
/// every attestor that is not idle holds a BLS key.
#[test]
fn non_idle_attestors_hold_keys() {
    let mut ext = Ext::build();
    let a1 = Attestor::new(STASH_1, ATTESTOR_1);
    let a2 = Attestor::new(STASH_2, ATTESTOR_2);
    assert_eq!(ext.register_attestor(a1.stash, SUPPORTED_CHAIN_KEY, a1.attestor_id), Ok(()));
    assert_eq!(ext.register_attestor(a2.stash, SUPPORTED_CHAIN_KEY, a2.attestor_id), Ok(()));
    assert_non_idle_attestors_hold_keys(&ext);
    assert_eq!(ext.attest(Origin::signed(a1.attestor_id), SUPPORTED_CHAIN_KEY, a1.public_key, &a1.signature), Ok(()));
    assert_non_idle_attestors_hold_keys(&ext);
    ext.progress_to_block(5);
    assert_eq!(ext.attestor(SUPPORTED_CHAIN_KEY, ATTESTOR_1).unwrap().status, AttestorStatus::Active);
    assert_eq!(ext.attestor(SUPPORTED_CHAIN_KEY, ATTESTOR_2).unwrap().status, AttestorStatus::Idle);
    assert_non_idle_attestors_hold_keys(&ext);
    assert_eq!(ext.chill(a1.stash, SUPPORTED_CHAIN_KEY, a1.attestor_id), Ok(()));
    assert_non_idle_attestors_hold_keys(&ext);
    assert_eq!(ext.unregister_attestor(a2.stash, SUPPORTED_CHAIN_KEY, a2.attestor_id), Ok(()));
    assert_non_idle_attestors_hold_keys(&ext);
}

#[test]
fn register_invulnerable_fails_when_the_list_is_full() {
    let mut ext = Ext::build();
    assert_eq!(ext.set_max_invulnerables(Origin::root(), SUPPORTED_CHAIN_KEY, 1), Ok(()));
    assert_eq!(
        ext.register_invulnerable(Origin::root(), SUPPORTED_CHAIN_KEY, ATTESTOR_1),
        Err(Error::InvulnerableListFull)
    );
}

#[test]
fn register_attestor_fails_when_the_stash_is_its_own_attestor() {
    let mut ext = Ext::build();
    assert_eq!(ext.register_attestor(Origin::signed(STASH_1), SUPPORTED_CHAIN_KEY, STASH_1), Err(Error::InvalidAttestorAccount));
}

#[test]
fn register_attestor_fails_when_the_stash_balance_is_below_its_bond() {
    let mut ext = Ext::build();
    let a1 = Attestor::new(STASH_3, ATTESTOR_1);
    assert_eq!(ext.register_attestor(a1.stash, SUPPORTED_CHAIN_KEY, a1.attestor_id), Ok(()));
    let mut events = Vec::new();
    let r = ext.att.register_attestor(Some(STASH_3), SUPPORTED_CHAIN_KEY, ATTESTOR_2, true, u128::MAX, 0, &mut events);
    assert_eq!(r.err(), Some(Error::Overflow));
    assert!(events.is_empty());
}

#[test]
fn set_max_catchup_rejects_zero_and_records_a_pending_value() {
    let mut ext = Ext::build();
    let mut events = Vec::new();
    assert_eq!(ext.att.set_max_catchup(true, SUPPORTED_CHAIN_KEY, 0, true, &mut events), Err(Error::InvalidMaxCatchup));
    assert_eq!(ext.att.set_max_catchup(false, SUPPORTED_CHAIN_KEY, 5, true, &mut events), Err(Error::BadOrigin));
    assert_eq!(ext.att.set_max_catchup(true, 2, 5, false, &mut events), Err(Error::ChainNotSupported));
    assert_eq!(ext.att.set_max_catchup(true, SUPPORTED_CHAIN_KEY, 5, true, &mut events), Ok(()));
    assert_eq!(ext.att.pending_max_catchup.get(&SUPPORTED_CHAIN_KEY).copied(), Some(5));
    assert_eq!(events.last().cloned(), Some(Event::PendingMaxCatchupSet(SUPPORTED_CHAIN_KEY, 5)));
}

#[test]
fn bootstrap_of_a_fresh_chain_must_start_at_its_genesis_block() {
    let mut ext = Ext::build();
    let attestor = Attestor::new(STASH_1, ATTESTOR_1);
    let attestation = create_signed_attestation(&mut ext, &[attestor], SUPPORTED_CHAIN_KEY, 5, None, None);
    assert_eq!(ext.bootstrap_chain(Origin::root(), &attestation), Err(Error::InvalidAttestationBlockNumber));
    assert_eq!(ext.last_attestation_digest(SUPPORTED_CHAIN_KEY), None);
}

#[test]
fn commit_attestation_is_refused_to_a_signer_outside_the_active_set() {
    let mut ext = Ext::build();
    let attestor = Attestor::new(STASH_1, ATTESTOR_1);
    activate(&mut ext, &attestor);
    let attestation = create_signed_attestation(&mut ext, &[attestor.clone()], SUPPORTED_CHAIN_KEY, 0, None, None);
    assert_eq!(ext.commit_attestation(Origin::signed(STASH_1), &attestation), Err(Error::AttestorNotActive));
    assert_eq!(ext.commit_attestation(Origin::signed(ATTESTOR_2), &attestation), Err(Error::AttestorNotActive));
    assert!(ext.stored(SUPPORTED_CHAIN_KEY, attestation.digest()).is_none());
}

#[test]
fn validation_fails_when_signers_outside_the_active_set_miss_the_majority() {
    let mut ext = Ext::build();
    let attestor = Attestor::new(STASH_1, ATTESTOR_1);
    assert_eq!(ext.register_attestor(attestor.stash, SUPPORTED_CHAIN_KEY, attestor.attestor_id), Ok(()));
    assert_eq!(
        ext.attest(Origin::signed(attestor.attestor_id), SUPPORTED_CHAIN_KEY, attestor.public_key, &attestor.signature),
        Ok(())
    );
    assert_eq!(ext.chill(Origin::signed(STASH_1), SUPPORTED_CHAIN_KEY, attestor.attestor_id), Ok(()));
    ext.progress_to_block(5);
    let attestation = create_signed_attestation(&mut ext, &[attestor], SUPPORTED_CHAIN_KEY, 0, None, None);
    assert_eq!(ext.validate_attestation(&attestation), Err(Error::MajorityNotReached));
}

/// A signer listed several times counts once towards the majority.
#[test]
fn validation_counts_a_repeated_signer_once() {
    let mut ext = Ext::build();
    assert_eq!(ext.set_target_sample_size(Origin::root(), SUPPORTED_CHAIN_KEY, 3), Ok(()));
    let attestor = Attestor::new(STASH_1, ATTESTOR_1);
    activate(&mut ext, &attestor);
    assert_eq!(ext.threshold(SUPPORTED_CHAIN_KEY), 3);
    let three = [attestor.clone(), attestor.clone(), attestor.clone()];
    let attestation = create_signed_attestation(&mut ext, &three, SUPPORTED_CHAIN_KEY, 0, None, None);
    assert_eq!(ext.validate_attestation(&attestation), Err(Error::MajorityNotReached));
}

/// Distinct signers that share a key count once towards the threshold.
#[test]
fn validation_counts_distinct_keys_against_the_threshold() {
    let mut ext = Ext::build();
    assert_eq!(ext.set_target_sample_size(Origin::root(), SUPPORTED_CHAIN_KEY, 2), Ok(()));
    let a1 = Attestor::new(STASH_1, ATTESTOR_1);
    let a2 = Attestor::new(STASH_2, ATTESTOR_2);
    assert_eq!(ext.register_attestor(a2.stash, SUPPORTED_CHAIN_KEY, a2.attestor_id), Ok(()));
    assert_eq!(ext.attest(Origin::signed(ATTESTOR_2), SUPPORTED_CHAIN_KEY, a2.public_key, &a2.signature), Ok(()));
    activate(&mut ext, &a1);
    assert_eq!(ext.threshold(SUPPORTED_CHAIN_KEY), 2);
    assert!(ext.att.is_attestor(SUPPORTED_CHAIN_KEY, ATTESTOR_2));
    let both = [a1.clone(), a2.clone()];
    let attestation = create_signed_attestation(&mut ext, &both, SUPPORTED_CHAIN_KEY, 0, None, None);
    assert_eq!(ext.validate_attestation(&attestation), Ok(()));
    // Storage drift: the second signer holds the first one's key.
    let mut b = ext.attestor(SUPPORTED_CHAIN_KEY, ATTESTOR_2).unwrap();
    b.bls_public_key = Some(a1.public_key);
    ext.att.attestors.insert((SUPPORTED_CHAIN_KEY, ATTESTOR_2), b);
    assert_eq!(ext.validate_attestation(&attestation), Err(Error::InsufficientUniqueSigners));
}

#[test]
fn a_bls_key_serves_one_attestor_of_a_chain() {
    let mut ext = Ext::build();
    let a1 = Attestor::new(STASH_1, ATTESTOR_1);
    let a2 = Attestor::new(STASH_2, ATTESTOR_2);
    assert_eq!(ext.register_attestor(a1.stash, SUPPORTED_CHAIN_KEY, a1.attestor_id), Ok(()));
    assert_eq!(ext.register_attestor(a2.stash, SUPPORTED_CHAIN_KEY, a2.attestor_id), Ok(()));
    assert_eq!(ext.attest(Origin::signed(ATTESTOR_1), SUPPORTED_CHAIN_KEY, a1.public_key, &a1.signature), Ok(()));
    assert_eq!(
        ext.attest(Origin::signed(ATTESTOR_2), SUPPORTED_CHAIN_KEY, a1.public_key, &a1.signature),
        Err(Error::BlsKeyAlreadyRegistered)
    );
    // Its owner may register it again, once idle.
    assert_eq!(
        ext.attest(Origin::signed(ATTESTOR_1), SUPPORTED_CHAIN_KEY, a1.public_key, &a1.signature),
        Err(Error::AttestorNotIdle)
    );
    assert_eq!(ext.chill(a1.stash, SUPPORTED_CHAIN_KEY, a1.attestor_id), Ok(()));
    assert_eq!(ext.attest(Origin::signed(ATTESTOR_1), SUPPORTED_CHAIN_KEY, a1.public_key, &a1.signature), Ok(()));
}

#[test]
fn unregister_attestor_fails_without_room_for_another_unlock_chunk() {
    let mut ext = Ext::build();
    ext.att.constants.max_unlocking_chunks = 1;
    let a1 = Attestor::new(STASH_3, ATTESTOR_1);
    let a2 = Attestor::new(STASH_3, ATTESTOR_2);
    assert_eq!(ext.register_attestor(a1.stash, SUPPORTED_CHAIN_KEY, a1.attestor_id), Ok(()));
    assert_eq!(ext.register_attestor(a2.stash, SUPPORTED_CHAIN_KEY, a2.attestor_id), Ok(()));
    assert_eq!(ext.unregister_attestor(a1.stash, SUPPORTED_CHAIN_KEY, a1.attestor_id), Ok(()));
    assert_eq!(ext.unregister_attestor(a2.stash, SUPPORTED_CHAIN_KEY, a2.attestor_id), Err(Error::NoMoreChunks));
    assert!(ext.attestor(SUPPORTED_CHAIN_KEY, ATTESTOR_2).is_some());
}

#[test]
fn unregister_attestor_fails_without_room_for_its_retired_key() {
    let mut ext = Ext::build();
    ext.att.constants.max_retired_per_stash = 0;
    let a1 = Attestor::new(STASH_1, ATTESTOR_1);
    assert_eq!(ext.register_attestor(a1.stash, SUPPORTED_CHAIN_KEY, a1.attestor_id), Ok(()));
    assert_eq!(ext.attest(Origin::signed(ATTESTOR_1), SUPPORTED_CHAIN_KEY, a1.public_key, &a1.signature), Ok(()));
    assert_eq!(ext.chill(a1.stash, SUPPORTED_CHAIN_KEY, a1.attestor_id), Ok(()));
    assert_eq!(
        ext.unregister_attestor(a1.stash, SUPPORTED_CHAIN_KEY, a1.attestor_id),
        Err(Error::RetiredAttestorPendingFull)
    );
}

/// The key of an unregistered attestor stays usable for its chain's attestations
/// until its unbonding ends, and no other attestor can take it meanwhile.
#[test]
fn retired_key_is_kept_until_the_unbonding_ends() {
    let mut ext = Ext::build();
    let a1 = Attestor::new(STASH_1, ATTESTOR_1);
    let a2 = Attestor::new(STASH_2, ATTESTOR_2);
    activate(&mut ext, &a1);
    assert_eq!(ext.chill(a1.stash, SUPPORTED_CHAIN_KEY, a1.attestor_id), Ok(()));
    assert_eq!(ext.unregister_attestor(a1.stash, SUPPORTED_CHAIN_KEY, a1.attestor_id), Ok(()));
    assert!(ext.attestor(SUPPORTED_CHAIN_KEY, ATTESTOR_1).is_none());
    let keys = ext.att.gather_attestor_public_keys(SUPPORTED_CHAIN_KEY, &vec![ATTESTOR_1]).unwrap();
    assert_eq!(keys, vec![a1.public_key]);
    assert_eq!(ext.register_attestor(a2.stash, SUPPORTED_CHAIN_KEY, a2.attestor_id), Ok(()));
    assert_eq!(
        ext.attest(Origin::signed(ATTESTOR_2), SUPPORTED_CHAIN_KEY, a1.public_key, &a1.signature),
        Err(Error::BlsKeyAlreadyRegistered)
    );
    ext.progress_to_block(50);
    assert_eq!(ext.withdraw_unbonded(a1.stash), Ok(()));
    assert_eq!(
        ext.att.gather_attestor_public_keys(SUPPORTED_CHAIN_KEY, &vec![ATTESTOR_1]),
        Err(Error::InvalidAttestorFound)
    );
    assert_eq!(ext.attest(Origin::signed(ATTESTOR_2), SUPPORTED_CHAIN_KEY, a1.public_key, &a1.signature), Ok(()));
}

/// The last attested block only grows as attestations are committed.
#[test]
fn last_attested_block_grows_with_each_commit() {
    let mut ext = Ext::build();
    let attestor = Attestor::new(STASH_1, ATTESTOR_1);
    activate(&mut ext, &attestor);
    let (attestations, _) = create_checkpoint(&mut ext, 10, 3, None, &[attestor.clone()]);
    assert_eq!(ext.last_attestation_digest(SUPPORTED_CHAIN_KEY), Some((20, attestations[2].digest())));
    // A refused commit leaves it alone.
    assert_eq!(ext.commit_attestation(Origin::signed(ATTESTOR_1), &attestations[1]), Err(Error::AttestationExists));
    assert_eq!(ext.last_attestation_digest(SUPPORTED_CHAIN_KEY), Some((20, attestations[2].digest())));
}
