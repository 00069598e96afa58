//! Deck builder: the engine, its community data sources and ingest.

pub mod engine;
pub mod ingest;
pub mod service;
pub mod sources;
pub mod sources_archidekt;
pub mod store;
pub mod store_load;
