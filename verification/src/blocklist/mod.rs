//! Block and allow lists: parsing, loading, refreshing and deciding.
pub mod cache;
pub mod decision_laws;
pub mod engine;
pub mod fst_map;
pub mod laws;
pub mod list_laws;
pub mod loader;
pub mod matching;
pub mod parser;
pub mod parser_laws;
pub mod refresh;
pub mod store;
pub mod suffix;
pub mod wildcard;
