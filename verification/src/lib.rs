//! A minimal proof-of-authority ledger core: signed transfer transactions,
//! hash-linked blocks, an append-only chain, a deduplicating mempool and the
//! wire codec for gossiping transactions and blocks between peers.

pub mod codec;
pub mod errors;
pub mod keypair;
pub mod transaction;
pub mod block;
pub mod blockchain;
pub mod txpool;
pub mod rpc;
pub mod node;
