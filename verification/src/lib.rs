//! Document chunking and bookkeeping for token-efficient retrieval.
pub mod text;
pub mod chunking;
pub mod lexicon;
pub mod document;
pub mod numbers;
pub mod json;
pub mod store;
pub mod mcp;
pub mod rank;
pub mod cli;
pub mod laws;
