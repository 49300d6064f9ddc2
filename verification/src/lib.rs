//! A line-oriented search engine.
//!
//! A [`Searcher`] compiles a pattern once. A scan ([`SearchIter`]) is then fed
//! the lines of a source one at a time; it numbers them, and every line in
//! which the pattern is found comes back as a [`SearchResult`] that holds the
//! line, its number and the byte range of each match. A result is written out
//! in one of four styles ([`OutputFormat`]), which the [`Options`] select.
//!
//! The library reads and writes nothing itself: the caller reads the source,
//! hands each read to the scan, and writes the lines it gets back.

pub mod error;
pub mod matches;
pub mod options;
pub mod pattern;
pub mod scan;
pub mod searcher;
pub mod text;

pub use error::SearchError;
pub use matches::SearchResult;
pub use options::{Options, OutputFormat};
pub use scan::SearchIter;
pub use searcher::Searcher;
