//! A minimal line-oriented text search library.
//!
//! Given a query string and the full contents of a file, the library returns
//! every line of the contents that contains the query, either with exact
//! comparison or after lowercasing both sides. A small configuration type
//! captures the query, the file path and the case-sensitivity flag from an
//! argument vector and an environment flag.

pub mod config;
pub mod lines;
pub mod search;
pub mod text;

pub use config::Config;
pub use config::ConfigError;
pub use lines::split_lines;
pub use search::matching_lines;
pub use search::search;
pub use search::search_case_insensitive;
