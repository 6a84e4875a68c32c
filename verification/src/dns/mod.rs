//! DNS: messages, the response cache, and the handling of queries.
pub mod answer_laws;
pub mod cache;
pub mod handler;
pub mod laws;
pub mod message;
pub mod qtype;
pub mod server;
pub mod types;
pub mod wire_laws;
