//! Verified core logic of the Creditcoin3 attestation runtime: the attestor
//! registry and bonding ledger, attestation validation and checkpointing, the
//! supported-chain registry, epoch randomness, proof submission bookkeeping,
//! attest-coin rewards, the bridge collector, the base-fee setting, and the
//! proof-of-concept tool configuration.

pub mod types;
pub mod bls;
pub mod keymap;
pub mod ledger;
pub mod attestation;
pub mod supported_chains;
pub mod poc_config;
pub mod prover;
pub mod randomness;
pub mod rewards;
pub mod bridge;
pub mod base_fee;
pub mod laws;
