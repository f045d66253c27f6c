# creditcoin_pallets

Verified core logic of the Creditcoin3 attestation runtime, written in Verus.

## Layout

- `src/` — the verified library.
  - `types.rs`, `keymap.rs` — digests, BLS keys and the insertion-ordered map that
    stands for runtime storage.
  - `bls.rs` — the calls into `bls-signatures` and `bls12_381` behind trusted
    wrappers, and the verified aggregation of public keys.
  - `ledger.rs` — the bond ledger of a stash and its unlock chunks.
  - `attestation/` — the attestation pallet: attestor registry, bonding and
    withdrawals, elections, attestation validation and continuity, checkpointing,
    chain maintenance (reverts, pruning, forward patches), genesis, storage
    migration and the calls.
  - `supported_chains.rs`, `randomness.rs`, `prover.rs`, `rewards.rs`, `bridge.rs`,
    `base_fee.rs` — the other pallets.
  - `poc_config.rs` — the configuration of the proof-of-concept tools.
  - `laws.rs` — properties that span several operations.
- `tests/` — tests that drive the library as a runtime would.
- `app/` — what stays outside the verified library: reading and writing the
  configuration files, and the block hooks that tie the pallets together.

Every call of the pallets takes the facts the runtime knows (whether the origin is
an operator, whether a chain is supported, the current era, balances) as plain
arguments, and returns the balance effects the runtime is to perform.
