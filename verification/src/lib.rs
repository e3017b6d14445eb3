//! Verified core of a fee-note sweeper: a pipeline that discovers encrypted
//! fee notes on chain, classifies them by decryptability, persists them with a
//! per-chain indexing checkpoint, and drives an authenticated, task-based
//! redemption protocol against a remote relayer.
//!
//! Network, database and chain-RPC plumbing live outside this crate; the data
//! model, the checkpointed indexing rules, the redemption policy and the
//! request-signing scheme are verified here.

pub mod auth;
pub mod indexer;
pub mod notes;
pub mod redeem;
pub mod relayer;
pub mod store;
