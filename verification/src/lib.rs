//! Verified core of the SUITER indexer: the ranking formula, the mirror of
//! ledger state it is computed from, and the scheduling rules of the two
//! background tasks.

pub mod config;
pub mod feed_ranker;
pub mod models;
pub mod order;
pub mod posts;
pub mod schedule;
pub mod score;
pub mod store;
pub mod sui_indexer;
pub mod table;
