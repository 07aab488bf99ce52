//! Extracts the novel words from batches of documents: text is cleaned of
//! extraction artifacts, split into tokens, sanitized to lowercase ASCII
//! alphanumerics, and filtered against a known-word dictionary and a
//! run-scoped novelty set, so that each unfamiliar word is reported once.

pub mod ext;
pub mod words;
pub mod text;
pub mod pipeline;
pub mod extract;
pub mod batch;
