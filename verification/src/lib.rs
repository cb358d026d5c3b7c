//! Heuristic source-code call-graph extraction.
//!
//! The library segments text files into function records by user-supplied
//! start/end patterns, detects caller/callee relationships by whole-word
//! name matching, and renders the result as a cluster-structured directed
//! graph description.

pub mod extract;
pub mod laws;
pub mod model;
pub mod pattern;
pub mod render;
pub mod text;
