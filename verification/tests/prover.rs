use creditcoin_pallets::prover::{ProverError, ProverEvent, ProverPallet};
use creditcoin_pallets::types::Digest;

const STARK_PROGRAM_V1_HASH: Digest = Digest { w0: 1, w1: 11, w2: 111, w3: 1111 };
const STARK_PROGRAM_V2_HASH: Digest = Digest { w0: 2, w1: 22, w2: 222, w3: 2222 };
const STARK_PROGRAM_V3_HASH: Digest = Digest { w0: 3, w1: 33, w2: 333, w3: 3333 };

fn pallet() -> ProverPallet {
    ProverPallet::new(16)
}

#[test]
fn set_stark_program_metadata_should_error_when_not_signed() {
    let mut p = pallet();
    let mut events = Vec::new();
    assert_eq!(p.set_stark_program_metadata(false, 2, STARK_PROGRAM_V3_HASH, &mut events), Err(ProverError::BadOrigin));
    assert!(events.is_empty());
}

#[test]
fn set_stark_program_metadata_should_error_when_not_signed_by_root() {
    let mut p = pallet();
    let mut events = Vec::new();
    assert_eq!(p.set_stark_program_metadata(false, 3, STARK_PROGRAM_V3_HASH, &mut events), Err(ProverError::BadOrigin));
    assert_eq!(p.stark_program_metadata(3), Digest::zero());
}

#[test]
fn set_stark_program_metadata_should_error_when_program_version_already_set() {
    let mut p = pallet();
    let mut events = Vec::new();
    assert!(p.set_stark_program_metadata(true, 3, STARK_PROGRAM_V3_HASH, &mut events).is_ok());
    assert_eq!(
        p.set_stark_program_metadata(true, 3, STARK_PROGRAM_V3_HASH, &mut events),
        Err(ProverError::StarkProgramMetadataAlreadySet)
    );
}

#[test]
fn set_stark_program_metadata_should_update_storage_and_emit_an_event() {
    let mut p = pallet();
    let mut events = Vec::new();
    assert!(p.set_stark_program_metadata(true, 2, STARK_PROGRAM_V2_HASH, &mut events).is_ok());
    assert_eq!(p.stark_program_metadata(2), STARK_PROGRAM_V2_HASH);
    assert_eq!(events.last(), Some(&ProverEvent::StarkProgramMetadataSet(2, STARK_PROGRAM_V2_HASH)));
}

#[test]
fn set_stark_program_metadata_can_be_called_twice_with_different_value() {
    let mut p = pallet();
    let mut events = Vec::new();
    assert!(p.set_stark_program_metadata(true, 1, STARK_PROGRAM_V1_HASH, &mut events).is_ok());
    assert_eq!(events.last(), Some(&ProverEvent::StarkProgramMetadataSet(1, STARK_PROGRAM_V1_HASH)));
    assert!(p.set_stark_program_metadata(true, 2, STARK_PROGRAM_V2_HASH, &mut events).is_ok());
    assert_eq!(events.last(), Some(&ProverEvent::StarkProgramMetadataSet(2, STARK_PROGRAM_V2_HASH)));
}

#[test]
fn set_start_program_metadata_and_remove_works() {
    let mut p = pallet();
    let mut events = Vec::new();
    assert!(p.set_stark_program_metadata(true, 1, STARK_PROGRAM_V1_HASH, &mut events).is_ok());
    assert_eq!(events.last(), Some(&ProverEvent::StarkProgramMetadataSet(1, STARK_PROGRAM_V1_HASH)));
    assert!(p.remove_stark_program_metadata(true, 1, &mut events).is_ok());
    assert_eq!(p.stark_program_metadata(1), Digest::zero());
    assert_eq!(events.last(), Some(&ProverEvent::StarkProgramMetadataRemoved(1)));
}

#[test]
fn cant_remove_unset_stark_program_metadata() {
    let mut p = pallet();
    let mut events = Vec::new();
    assert_eq!(p.remove_stark_program_metadata(true, 1, &mut events), Err(ProverError::StarkProgramMetadataNotFound));
}
