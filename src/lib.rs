//! A country cache: country metadata merged with exchange rates, an estimated
//! GDP derived from both, and a store of the merged records with atomic batch
//! refresh, filtered listing, lookup and deletion.

pub mod config;
pub mod enrich;
pub mod error;
pub mod models;
pub mod query;
pub mod rates;
pub mod report;
pub mod store;
