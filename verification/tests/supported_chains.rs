use creditcoin_pallets::attestation::model::AttestorElectionPolicy;
use creditcoin_pallets::attestation::pallet::{AttestationPallet, ChainParams, PalletConstants};
use creditcoin_pallets::supported_chains::{
    is_valid_maturity_strategy, GenesisConfig, SupportedChainsError, SupportedChainsEvent, SupportedChainsPallet,
};

fn attestation() -> AttestationPallet {
    let defaults = ChainParams {
        attestation_interval: 10,
        checkpoint_interval: 10,
        retention: 10,
        target_sample_size: 3,
        max_attestors: 10,
        max_invulnerables: 10,
        min_bond: 100,
        genesis_block_number: 0,
        election_policy: AttestorElectionPolicy::OpenToAny,
        max_catchup: 10,
    };
    let constants = PalletConstants {
        max_unlocking_chunks: 32,
        bonding_duration: 28,
        bond_existential_deposit: 1,
        native_existential_deposit: 1,
        bond_pool: 999,
        attestor_funding: 10,
        max_retired_per_stash: 64,
    };
    AttestationPallet::new(defaults, constants)
}

fn new_test_ext() -> SupportedChainsPallet {
    SupportedChainsPallet::new("FixedDelay:10".to_string())
}

/// A registry holding chain 200 "Ethereum" under key 1.
fn ext_builder() -> SupportedChainsPallet {
    let mut p = new_test_ext();
    let cfg = GenesisConfig { supported_chains: vec![(200, b"Ethereum".to_vec(), 1, "EvmFinalized".to_string())] };
    assert!(!cfg.has_duplicate(&p));
    cfg.build(&mut p);
    p
}

fn build_checked(cfg: &GenesisConfig, p: &mut SupportedChainsPallet) {
    if cfg.has_duplicate(p) {
        panic!("Duplicate chain name found in genesis config");
    }
    cfg.build(p);
}

fn register(
    p: &mut SupportedChainsPallet,
    operator: bool,
    att: &mut AttestationPallet,
    chain_id: u64,
    chain_name: &str,
) -> Result<u64, SupportedChainsError> {
    let mut ae = Vec::new();
    let mut events = Vec::new();
    p.register_chain(
        operator,
        att,
        chain_id,
        chain_name.as_bytes().to_vec(),
        None,
        None,
        None,
        None,
        None,
        None,
        1,
        None,
        &mut ae,
        &mut events,
    )
}

#[test]
fn register_chain_works() {
    let mut p = new_test_ext();
    let mut att = attestation();
    let chain_id = 200;
    let chain_name = "Ethereum".to_string();
    assert_eq!(p.next_chain_key, 1);
    let mut ae = Vec::new();
    let mut events = Vec::new();
    let r = p.register_chain(
        true,
        &mut att,
        chain_id,
        chain_name.as_bytes().to_vec(),
        None,
        None,
        None,
        None,
        None,
        None,
        1,
        None,
        &mut ae,
        &mut events,
    );
    assert!(r.is_ok());
    assert_eq!(p.next_chain_key, 2);
    let chain_key = p.chain_key_by_chain_id_and_name(chain_id, &chain_name.as_bytes().to_vec());
    assert!(chain_key.is_some());
    let c = p.chains.get(&chain_key.unwrap()).expect("Should have a chain");
    assert_eq!(c.chain_id, chain_id);
    assert_eq!(c.chain_name, chain_name.as_bytes().to_vec());
    match events.last() {
        Some(SupportedChainsEvent::ChainRegistered { chain_key: k, chain_id: id, chain_name: n, .. }) => {
            assert_eq!(*k, chain_key.unwrap());
            assert_eq!(*id, chain_id);
            assert_eq!(n, &chain_name.as_bytes().to_vec());
        },
        _ => panic!("expected ChainRegistered"),
    }
}

#[test]
fn register_chain_should_error_when_not_signed() {
    let mut p = ext_builder();
    let mut att = attestation();
    assert_eq!(register(&mut p, false, &mut att, 201, "Ethereum"), Err(SupportedChainsError::BadOrigin));
}

#[test]
fn register_chain_should_error_when_not_signed_by_root() {
    let mut p = ext_builder();
    let mut att = attestation();
    assert_eq!(register(&mut p, false, &mut att, 201, "Ethereum"), Err(SupportedChainsError::BadOrigin));
    assert_eq!(p.next_chain_key, 2);
}

#[test]
fn register_chain_should_error_when_registering_duplicate_chain() {
    let mut p = ext_builder();
    let mut att = attestation();
    assert_eq!(register(&mut p, true, &mut att, 200, "Ethereum"), Err(SupportedChainsError::ChainAlreadyRegistered));
}

#[test]
fn register_chain_should_work_when_registering_chain_with_duplicate_id_but_different_name() {
    let mut p = ext_builder();
    let mut att = attestation();
    assert!(register(&mut p, true, &mut att, 200, "Sepolia").is_ok());
    let chain_key = p.chain_key_by_chain_id_and_name(200, &b"Sepolia".to_vec());
    assert!(chain_key.is_some());
    let c = p.chains.get(&chain_key.unwrap()).expect("Should have a chain");
    assert_eq!(c.chain_id, 200);
    assert_eq!(c.chain_name, b"Sepolia".to_vec());
}

#[test]
fn register_chain_should_work_when_registering_chain_with_duplicate_name_but_different_id() {
    let mut p = ext_builder();
    let mut att = attestation();
    assert!(register(&mut p, true, &mut att, 201, "Ethereum").is_ok());
    let chain_key = p.chain_key_by_chain_id_and_name(201, &b"Ethereum".to_vec());
    assert!(chain_key.is_some());
    let c = p.chains.get(&chain_key.unwrap()).expect("Should have a chain");
    assert_eq!(c.chain_id, 201);
    assert_eq!(c.chain_name, b"Ethereum".to_vec());
}

#[test]
fn register_chain_should_error_when_chain_key_index_exceeded() {
    let mut p = ext_builder();
    let mut att = attestation();
    p.next_chain_key = u64::MAX;
    assert_eq!(register(&mut p, true, &mut att, 33, "Ethereum"), Err(SupportedChainsError::Arithmetic));
}

#[test]
fn remove_chain_works() {
    let mut p = ext_builder();
    let mut att = attestation();
    let chain_key = 1;
    assert_eq!(p.next_chain_key, 2);
    let mut ae = Vec::new();
    let mut events = Vec::new();
    assert!(p.remove_chain(true, &mut att, chain_key, false, &mut ae, &mut events).is_ok());
    assert!(p.chains.get(&chain_key).is_none());
    assert_eq!(p.next_chain_key, 2);
    match events.last() {
        Some(SupportedChainsEvent::ChainRemoved { chain_key: k, chain_id, chain_name, .. }) => {
            assert_eq!(*k, chain_key);
            assert_eq!(*chain_id, 200);
            assert_eq!(chain_name, &b"Ethereum".to_vec());
        },
        _ => panic!("expected ChainRemoved"),
    }
}

#[test]
fn remove_chain_should_error_when_not_signed() {
    let mut p = ext_builder();
    let mut att = attestation();
    let mut ae = Vec::new();
    let mut events = Vec::new();
    assert_eq!(p.remove_chain(false, &mut att, 1, false, &mut ae, &mut events), Err(SupportedChainsError::BadOrigin));
}

#[test]
fn remove_chain_should_error_when_not_signed_by_root() {
    let mut p = ext_builder();
    let mut att = attestation();
    let mut ae = Vec::new();
    let mut events = Vec::new();
    assert_eq!(p.remove_chain(false, &mut att, 1, false, &mut ae, &mut events), Err(SupportedChainsError::BadOrigin));
    assert!(p.is_chain_supported(1));
}

#[test]
fn remove_chain_should_error_when_chain_is_not_supported() {
    let mut p = new_test_ext();
    let mut att = attestation();
    let mut ae = Vec::new();
    let mut events = Vec::new();
    assert_eq!(
        p.remove_chain(true, &mut att, 1, false, &mut ae, &mut events),
        Err(SupportedChainsError::ChainNotSupported)
    );
}

#[test]
fn test_method_supported_chains() {
    let mut p = new_test_ext();
    let mut att = attestation();
    assert!(register(&mut p, true, &mut att, 200, "Ethereum").is_ok());
    let chain_key = p.chain_key_by_chain_id_and_name(200, &b"Ethereum".to_vec());
    assert!(chain_key.is_some(), "Chain key should be present");
    assert_eq!(p.supported_chains(), vec![chain_key.expect("Should have a chain key")]);
}

#[test]
fn test_function_is_chain_supported() {
    let p = ext_builder();
    assert!(p.is_chain_supported(1));
    assert!(!p.is_chain_supported(2));
}

#[test]
fn empty_supported_chains() {
    let p = new_test_ext();
    assert!(p.supported_chains().is_empty());
}

#[test]
#[should_panic]
fn build_should_panic_with_duplicate_chains_in_genesis() {
    let mut p = new_test_ext();
    let cfg = GenesisConfig {
        supported_chains: vec![
            (1, b"Ethereum".to_vec(), 1, "EvmFinalized".to_string()),
            (1, b"Ethereum".to_vec(), 1, "EvmFinalized".to_string()),
        ],
    };
    build_checked(&cfg, &mut p);
}

#[test]
fn register_chain_uses_default_maturity_and_sets_attestation_params() {
    let mut p = new_test_ext();
    let mut att = attestation();
    let mut ae = Vec::new();
    let mut events = Vec::new();
    let key = p
        .register_chain(true, &mut att, 5, b"Base".to_vec(), Some(7), Some(20), None, None, None, Some(9), 2, None, &mut ae, &mut events)
        .unwrap();
    assert_eq!(key, 1);
    assert_eq!(p.chains.get(&key).unwrap().maturity_strategy, "FixedDelay:10".to_string());
    let params = att.params_for(key);
    assert_eq!(params.target_sample_size, 7);
    assert_eq!(params.attestation_interval, 20);
    assert_eq!(params.genesis_block_number, 9);
    assert_eq!(ae.len(), 5);
}

#[test]
fn register_chain_rejects_invalid_maturity_strategy() {
    let mut p = new_test_ext();
    let mut att = attestation();
    let mut ae = Vec::new();
    let mut events = Vec::new();
    let r = p.register_chain(
        true,
        &mut att,
        5,
        b"Base".to_vec(),
        None,
        None,
        None,
        None,
        None,
        None,
        2,
        Some("Soon".to_string()),
        &mut ae,
        &mut events,
    );
    assert_eq!(r, Err(SupportedChainsError::InvalidMaturityStrategy));
    assert_eq!(p.next_chain_key, 1);
}

#[test]
fn maturity_strategies() {
    assert!(is_valid_maturity_strategy("EvmFinalized"));
    assert!(is_valid_maturity_strategy("EvmSafe"));
    assert!(is_valid_maturity_strategy("EvmLatest"));
    assert!(is_valid_maturity_strategy("FixedDelay:10"));
    assert!(is_valid_maturity_strategy("FixedDelay:  42  "));
    assert!(!is_valid_maturity_strategy("FixedDelay:"));
    assert!(!is_valid_maturity_strategy("FixedDelay:x1"));
    assert!(!is_valid_maturity_strategy("FixedDelay:18446744073709551616"));
    assert!(is_valid_maturity_strategy("FixedDelay:18446744073709551615"));
    assert!(!is_valid_maturity_strategy("evmfinalized"));
}
