//! A relayer for shielded-pool withdrawals, with verified contracts:
//!
//! - `public_inputs`: the fixed 335-byte layout of `ext_data` and its decoding;
//! - `job`: jobs, the last-in-first-out job store and the dispatcher;
//! - `builder`: instructions from withdrawal requests, grouped into
//!   transactions of at most `ix_per_tx` instructions;
//! - `broadcast`: the retrying broadcast engine, as a state machine;
//! - `helper`: byte, hex, nonce and private-key helpers;
//! - `indexer`: merging of fetched chain-history transactions.

pub mod public_inputs;
pub mod job;
pub mod builder;
pub mod broadcast;
pub mod helper;
pub mod indexer;
