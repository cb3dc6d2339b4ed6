//! A peer node library for a minimal cryptocurrency: the transaction model with
//! its canonical hashing, per-input signing and validation, and the framed wire
//! protocol that nodes use to exchange handshakes and transactions.

pub mod crypto;
pub mod endian;
pub mod base58;
pub mod protocol;
pub mod wire;
pub mod dispatch;
pub mod tree;
pub mod jsonrpc;
pub mod method;
pub mod rpc;
pub mod task;
pub mod account;
