//! A minimal line-oriented text search library.
//!
//! Given a query string and the full contents of a text file, the library
//! returns every line that contains the query, either verbatim or ignoring
//! letter case.  A small configuration resolver derives the query, the file
//! name and the case mode from a raw argument list plus one environment
//! toggle; the caller performs all I/O and hands the library plain values.

pub mod config;
pub mod engine;
pub mod text;

pub use config::Config;
pub use config::ConfigError;
pub use engine::run_search;
pub use engine::search;
pub use engine::search_case_insensitive;
