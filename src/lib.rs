//! Ingestion of race-result score tables: a verified parser from the
//! result document to a race aggregate, and the rules of storing it.
pub mod document;
pub mod error;
pub mod fields;
pub mod ingest;
pub mod mode;
pub mod race;
pub mod row;
pub mod store;
pub mod text;

pub use document::parse_race;
pub use race::Race;
