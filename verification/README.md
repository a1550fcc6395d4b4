# moltchain_core

The core library of the MoltChain / Lichen chain, written in Verus: each
public function carries a `requires` / `ensures` contract that Verus proves
against its body.

## Layout

- `src/` — the verified library
  - `bytes`, `text`, `u256`, `order`: byte strings, decimal text, 256-bit
    big-endian amounts, ordering helpers
  - `crypto`: the hashing, signature and encoding calls into `sha2`, `sha3`,
    `ed25519-dalek`, `hex` and `bs58`, each with the contract Verus relies on
  - `keymap`, `entry_map`: maps held as lists of distinct keys, with their
    view as a mathematical map
  - `hash`, `account`, `keypair_file`: hashes, keys, accounts and balances,
    keypair files with password encryption (Argon2id and AES-256-GCM)
  - `consensus`: staking and rewards, validators and leader selection, BFT
    votes and their aggregation, finality and fork choice, slashing, the
    price-feed oracle
  - `genesis`, `multisig`, `governance`: genesis configuration and wallets,
    governed committees and transfer-velocity policies, governance actions
  - `transaction`, `block`, `mempool`, `event_stream`: transactions, blocks
    and commit certificates, the transaction pool, chain events
  - `contract`, `contract_instruction`: contract accounts, ABI, and the
    execution context that the WASM host functions act on
  - `evm`: signed EVM transactions, accounts and state changes, spore/wei
    conversions, logs and topic filters
  - `shielded_pool`, `weth_token`, `reef_storage`, `marketplace`: the
    shielded pool, the wrapped-ETH token and the Reef storage contract as
    state machines, and marketplace records
- `app/` — what the library leaves to ordinary Rust: randomness for new
  keys, files on disk, serde encodings, and the floating-point prices and
  statistics
- `tests/` — tests run against the compiled library
