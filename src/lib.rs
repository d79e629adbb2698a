//! Ingestion and storage of national lottery draw results.
//!
//! The library turns requested draw dates into canonical keys, decodes the
//! results service's replies and raw result documents into one normalised
//! shape, keeps the draws and their prize numbers in a store with
//! insert-or-ignore semantics, and drives a batch ingestion run as a state
//! machine whose fetches and pauses are carried out by the caller.
pub mod text;
pub mod dates;
pub mod types;
pub mod json;
pub mod ingest;
pub mod store;
pub mod decode;
pub mod pipeline;
pub mod reports;
pub mod config;
pub mod rpc;
