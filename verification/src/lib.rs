//! Extraction of clean article content from web pages and feeds.
//!
//! The crate normalizes feed payloads (RSS 1.0 / RSS 2.0 / Atom) into
//! canonical article records and derives the main body of an article page
//! from raw HTML: boilerplate elements are removed, the most content-like
//! element is chosen by selector probing with a density-scoring fallback,
//! and the winning fragment is converted to Markdown text with normalized
//! whitespace.

pub mod article;
pub mod bridge;
pub mod clean;
pub mod dom;
pub mod errors;
pub mod feed;
pub mod extract;
pub mod score;
pub mod site;
pub mod text;
