//! A code-complexity scorer: given a model of a source tree, it scores each
//! recognized source file line by line, aggregates the scores bottom-up into
//! per-directory totals, and prunes zero-score files and directories.
//!
//! - [`scoring`] holds the per-line scorer and the file-name filter.
//! - [`model`] holds the input and output trees and their mathematical views.
//! - [`builder`] holds the tree builder and its aggregation functions.
//! - [`laws`] states and proves the properties the builder guarantees.

pub mod builder;
pub mod laws;
pub mod model;
pub mod scoring;
