//! Mines unchecked checklist items out of markdown documents, each printed
//! with the headings that lead to it and the lines nested under it.

pub mod engine;
pub mod filter;
pub mod metrics;
