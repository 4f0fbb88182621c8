//! Checks that a node answers event queries as a captured record says.
//!
//! A fixture is a file of events, one JSON object per line, whose name
//! encodes the query that produced it. This library decodes fixture names
//! (`filter_seed`, `stem`), reads filter descriptors (`filter_seed`), brings
//! events into canonical form (`util`, `event`), decides how events are
//! retrieved by pages or by subscription (`retriever`), compares what was
//! retrieved with the fixture (`comparison`), and derives filtered fixtures
//! from captured ones (`curator`). It does no input or output of its own.

pub mod comparison;
pub mod config;
pub mod curator;
pub mod decimal;
pub mod error;
pub mod event;
pub mod felt;
pub mod filter_seed;
pub mod json;
pub mod lists;
pub mod order;
pub mod retriever;
pub mod stem;
pub mod text;
pub mod util;
