//! On-chain state encoding and transaction assembly for an IBC relayer's CKB backend.
//!
//! All protocol state lives in cells of the ledger. This crate holds the pure
//! part of the backend: the byte layout of the records kept in cells, the
//! scripts by which cells are located, the rotation of the bounded window of
//! light-client snapshots, the drafting of transactions, and the recovery of
//! connection, channel and packet state from committed transactions.

pub mod bytes;
pub mod cache;
pub mod cell;
pub mod codec;
pub mod config;
pub mod draft;
pub mod extractor;
pub mod ibc;
pub mod ledger;
pub mod light_client;
pub mod locator;
pub mod query;
pub mod record;
pub mod ring;
pub mod submit;
pub mod wire;
