//! Parsing and inspection of Adobe Font Metrics (AFM) files.
//!
//! AFM is a plain-text format that predates most modern font tooling and is
//! still produced by some PDF and PostScript pipelines. Files are hand
//! written or hand patched often enough that a parser needs to say exactly
//! where it gave up, not just that it gave up: every error carries the line
//! and column of the offending text.
//!
//! `parser::spec_parse` states what a file means; `parse` is proved to
//! compute exactly that.
use vstd::prelude::*;

pub mod char_metrics;
pub mod cli;
pub mod json;
pub mod kern;
pub mod laws;
pub mod metrics;
pub mod number;
pub mod offsets;
pub mod parser;
pub mod text;

pub use metrics::{
    BoundingBox, CompositePart, FontMetrics, GlyphMetric, KernPair, Ligature, Number, ParseError,
};
pub use char_metrics::parse_char_metrics_line;
pub use kern::parse_kern_pair_line;
pub use parser::parse;
pub use offsets::{char_column, next_token, skip_ws};

verus! {
} // verus!
