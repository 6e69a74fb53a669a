pub mod data;
pub mod ingest;
pub mod laws;
pub mod lifecycle;
pub mod query;
pub mod registry;
pub mod schema;
pub mod search;
pub mod store;
