//! The indexing stage of a search pipeline: it accumulates parsed documents
//! into one in-progress split at a time and decides when that split is due
//! to be handed to the packaging stage.

pub mod config;
pub mod counters;
pub mod document;
pub mod error;
pub mod indexer;
pub mod model;
pub mod split;
pub mod time_range;
