//! MoltChain core library: accounts, blocks, consensus (staking, BFT votes,
//! leader selection, finality, fork choice, slashing), mempool and the
//! smaller data types of the chain, with their behaviour stated as Verus
//! contracts.

pub mod bytes;
pub mod crypto;
pub mod text;
pub mod u256;
pub mod order;
pub mod keymap;
pub mod entry_map;
pub mod hash;
pub mod account;
pub mod keypair_file;
pub mod clock;
pub mod consensus;
pub mod genesis;
pub mod governance;
pub mod transaction;
pub mod block;
pub mod marketplace;
pub mod mempool;
pub mod event_stream;
pub mod contract;
pub mod contract_instruction;
pub mod evm;
pub mod multisig;
pub mod reef_storage;
pub mod shielded_pool;
pub mod weth_token;
