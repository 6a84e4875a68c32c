//! What the HTTP interface answers, apart from HTTP itself.
pub mod access_laws;
pub mod auth;
pub mod blocklist;
pub mod cert;
pub mod clients;
pub mod custom_records;
pub mod error;
pub mod ingress;
pub mod lists;
pub mod metrics;
pub mod metrics_laws;
pub mod middleware;
pub mod proxy;
pub mod proxy_laws;
pub mod queries;
pub mod rule_laws;
pub mod settings;
pub mod settings_laws;
pub mod stats;
pub mod system;
pub mod tool_laws;
pub mod tools;
pub mod update;
pub mod view_laws;
pub mod wg_conf;
