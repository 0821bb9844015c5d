//! A resilient, multi-strategy extractor of quote records from finance
//! pages whose markup and embedded data format may change at any time.
//!
//! Given raw page text, the pipeline locates the quote fields through a
//! cascade of decreasing-confidence strategies: lookup of an embedded
//! structured-data block by known schema shapes, a generic key-set search
//! over the whole parsed tree, and a heuristic scan of the markup that
//! scores, ranks and deduplicates candidate texts per field. A selector
//! synthesizer and verifier round the library off as a self-healing and
//! diagnostic surface.
//!
//! Every function is specified and verified; the HTML engine and the JSON
//! parser stand behind named, trusted boundaries, so that everything built
//! on them is a proven function of the page text alone.

pub mod candidate;
pub mod discover;
pub mod dom;
pub mod parse;
pub mod pipeline;
pub mod scan;
pub mod schema;
pub mod selector;
pub mod text;
pub mod tree;

