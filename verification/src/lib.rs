//! Verified building blocks for four small line-oriented text tools:
//! a concatenator with optional line numbering, a head limiter, an
//! adjacent-line deduplicator, and a line/word/byte/character counter.
//!
//! Each tool's stream transformation is a pure function here, with a
//! contract over sequence views; reading files and writing output is
//! left to the callers.

pub mod catr;
pub mod headr;
pub mod numfmt;
pub mod text;
pub mod uniqr;
pub mod wcr;
