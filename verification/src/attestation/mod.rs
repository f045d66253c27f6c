//! The attestation pallet: attestor registry, bonding, elections, attestation
//! validation and checkpointing.

pub mod model;
pub mod store;
pub mod pallet;
pub mod registry;
pub mod chains;
pub mod hooks;
pub mod maintenance;
pub mod genesis;
pub mod calls;
pub mod balances;
pub mod migrations;
