//! A syndication-feed core: a parser that normalizes the RSS 0.9x family,
//! RSS 1.0 (RDF-wrapped), RSS 2.0 and Atom 0.3/1.0 into one unified feed
//! model, plus a post-processing step that rewrites relative links against
//! the feed's source host, and small helpers for presenting feeds as
//! chat messages.

pub mod feed;
pub mod msg;
pub mod parser;
pub mod tokens;
pub mod url;
pub mod xml;
