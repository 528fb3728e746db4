//! A translator between two ways of talking to a language model: it takes
//! requests of the Responses API, turns them into Chat Completions requests for
//! an upstream, and turns the upstream's answers back into Responses events.

pub mod catalog;
pub mod catalog_laws;
pub mod config;
pub mod ids;
pub mod json;
pub mod json_laws;
pub mod rate_limit;
pub mod server;
pub mod sse;
pub mod text;
pub mod text_laws;
pub mod translate;

pub use config::ProxyConfig;
pub use rate_limit::RateLimiter;
pub use rate_limit::DEFAULT_RPM;
