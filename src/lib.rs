//! A line-oriented text search: report every line of a text that contains
//! a query, optionally ignoring case.
pub mod config;
pub mod laws;
pub mod report;
pub mod search;
pub mod text;

pub use config::Config;
pub use search::search;
