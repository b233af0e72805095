//! A small line-oriented text search library.
//!
//! The library has two parts: a configuration resolver that assembles a
//! [`Config`] from raw invocation tokens, and a pure line search engine,
//! [`search`], that reports every line of a text containing a query string,
//! optionally after simple (ASCII) lowercase folding, each line paired with
//! its 1-based line number.

pub mod config;
pub mod search;
pub mod text;

pub use config::Config;
pub use config::ConfigError;
pub use search::Output;
pub use search::search;

