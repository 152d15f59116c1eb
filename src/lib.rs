//! Persistent-storage core of a rollup operator: the account update log, the
//! verified account snapshot, the operation log with per-signer nonces, and the
//! prover job leases, kept as in-memory tables with verified queries.
pub mod blob;
pub mod account_map;
pub mod state;
pub mod operation;
pub mod error;
pub mod rows;
pub mod storage;
pub mod laws;
