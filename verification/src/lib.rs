//! Scan-line decomposition of a decoded PNG pixel stream.
//!
//! Given an image's width, height, bits-per-pixel and interlacing flag, the
//! crate computes the byte length and interlace pass of every successive scan
//! line of the decoded (post-decompression, still filtered) byte buffer, and
//! offers a read-only and a write-capable traversal over that buffer, one
//! scan line at a time.
//!
//! [`ranges`] holds the pass-length calculator and the specification model
//! every contract speaks of; [`views`] the two traversals; [`totals`] the
//! whole-image byte budgets; [`laws`] the proved properties of the
//! decomposition — round trip, write isolation, per-pass row counts, pass
//! order, and the small-image pass skips.

pub mod laws;
pub mod ranges;
pub mod totals;
pub mod views;

pub use ranges::ScanLineRanges;
pub use totals::required_len;
pub use views::ScanLine;
pub use views::ScanLineMut;
pub use views::ScanLines;
pub use views::ScanLinesMut;
