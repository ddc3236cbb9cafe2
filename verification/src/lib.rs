//! Protocol library for the ABYSS devnet: coins, addresses, ledger state,
//! blocks and chain sequencing, BFT consensus bookkeeping, wallet policy,
//! the social layer model, and tokenomics planning.

pub mod coin;
pub mod text;
pub mod chars;
pub mod hashing;
pub mod address;
pub mod keymap;
pub mod state;
pub mod transaction;
pub mod block;
pub mod genesis;
pub mod chain;
pub mod mempool;
pub mod consensus;
pub mod tokenomics;
pub mod social;
pub mod crypto;
pub mod wallet;
pub mod crypto_api;
pub mod crypto_adapter;
pub mod storage;
pub mod node;
pub mod data;
