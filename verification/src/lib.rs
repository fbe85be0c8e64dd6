//! Tracks the state of Rust RFCs: reads RFC file names and markdown,
//! extracts the tracking issues they link to, and decides what the
//! GitHub answers about those issues mean.

pub mod display;
pub mod errors;
pub mod github;
pub mod links;
pub mod markdown;
pub mod rfc;
pub mod text;
