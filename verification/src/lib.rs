//! Verified core of an adaptive ray-tracing renderer.
//!
//! The renderer shades a full-resolution pass in parallel worker chunks,
//! detects edges, and supersamples the flagged pixels.  This crate holds the
//! parts of that pipeline whose behaviour is stated and proved exactly:
//! the dense row-major pixel grid and its traversal cursors ([`table`]),
//! the partition of the pixel index space among workers ([`pipeline`]),
//! and the binary image encoding ([`image`]).

pub mod image;
pub mod pipeline;
pub mod table;
