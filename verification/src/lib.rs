//! A ledger for commerce trust: participants, settlements, escrows, disputes
//! and reward tokens, replicated by a small fixed set of validators.

pub mod bytes;
pub mod consensus;
pub mod crypto;
pub mod laws;
pub mod message;
pub mod node;
pub mod roster;
pub mod rpc;
pub mod state;
pub mod store;
pub mod text;
pub mod types;
pub mod votes;
pub mod wire;
