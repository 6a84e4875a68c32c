//! A DNS ad blocker: block lists, DNS message handling, client naming,
//! configuration and the management API's rules, each with its contract.
pub mod api;
pub mod blocklist;
pub mod clients;
pub mod config;
pub mod config_laws;
pub mod dns;
pub mod error;
pub mod ip;
pub mod ip_laws;
pub mod log_laws;
pub mod logbuf;
pub mod lru_cache;
pub mod memstats;
pub mod normal_laws;
pub mod order;
pub mod order_laws;
pub mod panel;
pub mod panel_laws;
pub mod random;
pub mod startup;
pub mod startup_laws;
pub mod text;
pub mod text_laws;
