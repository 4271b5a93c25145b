//! A small line-oriented substring search library.
//!
//! The matcher splits a body of text into lines and returns, in their
//! original order, the lines that contain a query string, either exactly
//! or ignoring ASCII case. A configuration type holds the query, the file
//! name and the case mode taken from positional arguments.

mod config;
mod laws;
mod matcher;

pub use config::Config;
pub use config::GrepError;
pub use laws::is_subsequence_of;
pub use laws::lemma_case_insensitive_superset;
pub use laws::lemma_empty_query_matches_all;
pub use laws::lemma_empty_text;
pub use laws::lemma_search_deterministic;
pub use laws::lemma_search_sound;
pub use matcher::run_search;
pub use matcher::search;
pub use matcher::search_case_insensitive;
